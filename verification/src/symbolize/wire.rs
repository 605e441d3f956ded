//! The protobuf contract shared with the isolated symbolizer worker.
//!
//! Every field has a fixed number and every enum value a fixed discriminant, so
//! that releases can add fields and values without renumbering the wire.
use vstd::prelude::*;
use vstd::utf8::{encode_utf8, valid_utf8};

use super::codec::{
    field_models, lemma_fields_round_trip, writable, write_fields, Field, FieldModel, ValueModel,
    WireFault,
    RECURSION_LIMIT,
};
use crate::strings::join2;

use super::message::{
    declared, decode_fault, decode_message, decoded, decoded_onto, encode_message, encoded, find_nested_fault,
    find_number_fault, find_text_fault, find_unknown_fault, fold_fields,
    lemma_declared_writable, lemma_fold_concat, lemma_fold_grow, lemma_fold_repeated,
    lemma_fold_short, lemma_message_round_trip, lemma_payload_within, lemma_payloads_concat, lemma_payloads_uniform,
    lemma_run_sizes, lemma_text,
    low32, low_half, merge_nested, misread, message_models, message_piece, messages_piece, nested,
    nested_fault, nested_onto, number_fault, number_of, number_piece, optional_number_piece, optional_text, optional_text_piece,
    payloads, placed, put_message, put_messages, put_number, put_optional_number, put_optional_text, put_text,
    put_texts, take_nested, take_number, take_text, text_fault, text_models, text_of, text_piece,
    texts_piece, unknown_fault, DecodeFault, FaultModel, WireMessage, WireModel,
};

verus! {

/// A count as large as this machine can hold.
pub open spec fn saturated(number: u64) -> usize {
    if number > usize::MAX { usize::MAX } else { number as usize }
}

fn saturate(number: u64) -> (count: usize)
    ensures
        count == saturated(number),
{
    if number > usize::MAX as u64 { usize::MAX } else { number as usize }
}

pub open spec fn optional_source_number(source: Option<DiscoverySource>) -> Option<u32> {
    match source {
        None => None,
        Some(source) => Some(source_number(source)),
    }
}

fn optional_number(source: Option<DiscoverySource>) -> (number: Option<u32>)
    ensures
        number == optional_source_number(source),
{
    match source {
        None => None,
        Some(source) => Some(source.number()),
    }
}

/// How a capture was taken.
#[derive(Clone, Copy, Debug, Hash, PartialEq, Eq, Structural)]
pub enum CaptureFormat {
    CooperativeFrames,
    Minidump,
}

/// The number that stands for a [`CaptureFormat`] on the wire.
pub open spec fn format_number(value: CaptureFormat) -> u32 {
    match value {
        CaptureFormat::CooperativeFrames => 0,
        CaptureFormat::Minidump => 1,
    }
}

/// The [`CaptureFormat`] that a number stands for; an unknown one claims nothing.
pub open spec fn format_of(number: u32) -> CaptureFormat {
    if number == 1 {
        CaptureFormat::Minidump
    } else {
        CaptureFormat::CooperativeFrames
    }
}

impl CaptureFormat {
    pub fn number(self) -> (number: u32)
        ensures
            number == format_number(self),
    {
        match self {
            CaptureFormat::CooperativeFrames => 0,
            CaptureFormat::Minidump => 1,
        }
    }

    pub fn from_number(number: u32) -> (value: CaptureFormat)
        ensures
            value == format_of(number),
    {
        match number {
            1 => CaptureFormat::Minidump,
            _ => CaptureFormat::CooperativeFrames,
        }
    }
}

impl Default for CaptureFormat {
    fn default() -> (value: Self)
        ensures
            value == CaptureFormat::CooperativeFrames,
    {
        CaptureFormat::CooperativeFrames
    }
}

/// How far a frame was resolved.
#[derive(Clone, Copy, Debug, Hash, PartialEq, Eq, Structural)]
pub enum FrameStatus {
    RawOnly,
    Resolved,
    ModuleUnknown,
}

/// The number that stands for a [`FrameStatus`] on the wire.
pub open spec fn frame_status_number(value: FrameStatus) -> u32 {
    match value {
        FrameStatus::RawOnly => 0,
        FrameStatus::Resolved => 1,
        FrameStatus::ModuleUnknown => 2,
    }
}

/// The [`FrameStatus`] that a number stands for; an unknown one claims nothing.
pub open spec fn frame_status_of(number: u32) -> FrameStatus {
    if number == 1 {
        FrameStatus::Resolved
    } else if number == 2 {
        FrameStatus::ModuleUnknown
    } else {
        FrameStatus::RawOnly
    }
}

impl FrameStatus {
    pub fn number(self) -> (number: u32)
        ensures
            number == frame_status_number(self),
    {
        match self {
            FrameStatus::RawOnly => 0,
            FrameStatus::Resolved => 1,
            FrameStatus::ModuleUnknown => 2,
        }
    }

    pub fn from_number(number: u32) -> (value: FrameStatus)
        ensures
            value == frame_status_of(number),
    {
        match number {
            1 => FrameStatus::Resolved,
            2 => FrameStatus::ModuleUnknown,
            _ => FrameStatus::RawOnly,
        }
    }
}

impl Default for FrameStatus {
    fn default() -> (value: Self)
        ensures
            value == FrameStatus::RawOnly,
    {
        FrameStatus::RawOnly
    }
}

/// Whether an image could be matched with symbols.
#[derive(Clone, Copy, Debug, Hash, PartialEq, Eq, Structural)]
pub enum ModuleSymbolStatus {
    NotFound,
    Resolved,
    Mismatched,
    NoDebugDirectory,
    Unsupported,
}

/// The number that stands for a [`ModuleSymbolStatus`] on the wire.
pub open spec fn module_status_number(value: ModuleSymbolStatus) -> u32 {
    match value {
        ModuleSymbolStatus::NotFound => 0,
        ModuleSymbolStatus::Resolved => 1,
        ModuleSymbolStatus::Mismatched => 2,
        ModuleSymbolStatus::NoDebugDirectory => 3,
        ModuleSymbolStatus::Unsupported => 4,
    }
}

/// The [`ModuleSymbolStatus`] that a number stands for; an unknown one claims nothing.
pub open spec fn module_status_of(number: u32) -> ModuleSymbolStatus {
    if number == 1 {
        ModuleSymbolStatus::Resolved
    } else if number == 2 {
        ModuleSymbolStatus::Mismatched
    } else if number == 3 {
        ModuleSymbolStatus::NoDebugDirectory
    } else if number == 4 {
        ModuleSymbolStatus::Unsupported
    } else {
        ModuleSymbolStatus::NotFound
    }
}

impl ModuleSymbolStatus {
    pub fn number(self) -> (number: u32)
        ensures
            number == module_status_number(self),
    {
        match self {
            ModuleSymbolStatus::NotFound => 0,
            ModuleSymbolStatus::Resolved => 1,
            ModuleSymbolStatus::Mismatched => 2,
            ModuleSymbolStatus::NoDebugDirectory => 3,
            ModuleSymbolStatus::Unsupported => 4,
        }
    }

    pub fn from_number(number: u32) -> (value: ModuleSymbolStatus)
        ensures
            value == module_status_of(number),
    {
        match number {
            1 => ModuleSymbolStatus::Resolved,
            2 => ModuleSymbolStatus::Mismatched,
            3 => ModuleSymbolStatus::NoDebugDirectory,
            4 => ModuleSymbolStatus::Unsupported,
            _ => ModuleSymbolStatus::NotFound,
        }
    }
}

impl Default for ModuleSymbolStatus {
    fn default() -> (value: Self)
        ensures
            value == ModuleSymbolStatus::NotFound,
    {
        ModuleSymbolStatus::NotFound
    }
}

/// Where a symbol file was found, nearest first.
#[derive(Clone, Copy, Debug, Hash, PartialEq, Eq, Structural)]
pub enum DiscoverySource {
    Embedded,
    AdjacentManifest,
    Registration,
    AdjacentNative,
    BuildIdCache,
    ConfiguredStore,
    ConfiguredServer,
}

/// The number that stands for a [`DiscoverySource`] on the wire.
pub open spec fn source_number(value: DiscoverySource) -> u32 {
    match value {
        DiscoverySource::Embedded => 0,
        DiscoverySource::AdjacentManifest => 1,
        DiscoverySource::Registration => 2,
        DiscoverySource::AdjacentNative => 3,
        DiscoverySource::BuildIdCache => 4,
        DiscoverySource::ConfiguredStore => 5,
        DiscoverySource::ConfiguredServer => 6,
    }
}

/// The [`DiscoverySource`] that a number stands for, if it is a known one.
pub open spec fn source_of(number: u32) -> Option<DiscoverySource> {
    if number == 0 {
        Some(DiscoverySource::Embedded)
    } else if number == 1 {
        Some(DiscoverySource::AdjacentManifest)
    } else if number == 2 {
        Some(DiscoverySource::Registration)
    } else if number == 3 {
        Some(DiscoverySource::AdjacentNative)
    } else if number == 4 {
        Some(DiscoverySource::BuildIdCache)
    } else if number == 5 {
        Some(DiscoverySource::ConfiguredStore)
    } else if number == 6 {
        Some(DiscoverySource::ConfiguredServer)
    } else {
        None
    }
}

impl DiscoverySource {
    pub fn number(self) -> (number: u32)
        ensures
            number == source_number(self),
    {
        match self {
            DiscoverySource::Embedded => 0,
            DiscoverySource::AdjacentManifest => 1,
            DiscoverySource::Registration => 2,
            DiscoverySource::AdjacentNative => 3,
            DiscoverySource::BuildIdCache => 4,
            DiscoverySource::ConfiguredStore => 5,
            DiscoverySource::ConfiguredServer => 6,
        }
    }

    pub fn from_number(number: u32) -> (value: Option<DiscoverySource>)
        ensures
            value == source_of(number),
    {
        match number {
            0 => Some(DiscoverySource::Embedded),
            1 => Some(DiscoverySource::AdjacentManifest),
            2 => Some(DiscoverySource::Registration),
            3 => Some(DiscoverySource::AdjacentNative),
            4 => Some(DiscoverySource::BuildIdCache),
            5 => Some(DiscoverySource::ConfiguredStore),
            6 => Some(DiscoverySource::ConfiguredServer),
            _ => None,
        }
    }
}

/// One loaded image that frames refer to.
#[derive(Clone, Debug, PartialEq, Eq)]
pub struct ModuleRef {
    /// What the host calls the image.
    pub name: String,
    /// Where the image was mapped.
    pub base_avma: u64,
    pub code_id: Option<String>,
    pub debug_id: Option<String>,
    pub debug_file: Option<String>,
    /// Where the image was seen on disk.
    pub path_hint: Option<String>,
    /// The symbol file that the image itself names.
    pub embedded_symbol_path: Option<String>,
}

/// Mathematical counterpart of [`ModuleRef`].
pub struct ModuleRefModel {
    pub name: Seq<char>,
    pub base_avma: u64,
    pub code_id: Option<Seq<char>>,
    pub debug_id: Option<Seq<char>>,
    pub debug_file: Option<Seq<char>>,
    pub path_hint: Option<Seq<char>>,
    pub embedded_symbol_path: Option<Seq<char>>,
}

impl WireModel for ModuleRef {
    type Model = ModuleRefModel;

    open spec fn model(&self) -> ModuleRefModel {
        ModuleRefModel {
            name: self.name@,
            base_avma: self.base_avma,
            code_id: optional_text(self.code_id),
            debug_id: optional_text(self.debug_id),
            debug_file: optional_text(self.debug_file),
            path_hint: optional_text(self.path_hint),
            embedded_symbol_path: optional_text(self.embedded_symbol_path),
        }
    }

    open spec fn blank_model() -> ModuleRefModel {
        ModuleRefModel {
            name: Seq::empty(),
            base_avma: 0,
            code_id: None,
            debug_id: None,
            debug_file: None,
            path_hint: None,
            embedded_symbol_path: None,
        }
    }

    open spec fn merged(
        model: ModuleRefModel,
        field: FieldModel,
        budget: nat,
    ) -> Option<ModuleRefModel> {
        if field.tag == 1 {
            match text_of(field.value) {
                None => None,
                Some(name) => Some(ModuleRefModel { name, ..model }),
            }
        } else if field.tag == 2 {
            match number_of(field.value) {
                None => None,
                Some(base_avma) => Some(ModuleRefModel { base_avma, ..model }),
            }
        } else if field.tag == 3 {
            match text_of(field.value) {
                None => None,
                Some(text) => Some(ModuleRefModel { code_id: Some(text), ..model }),
            }
        } else if field.tag == 4 {
            match text_of(field.value) {
                None => None,
                Some(text) => Some(ModuleRefModel { debug_id: Some(text), ..model }),
            }
        } else if field.tag == 5 {
            match text_of(field.value) {
                None => None,
                Some(text) => Some(ModuleRefModel { debug_file: Some(text), ..model }),
            }
        } else if field.tag == 6 {
            match text_of(field.value) {
                None => None,
                Some(text) => Some(ModuleRefModel { path_hint: Some(text), ..model }),
            }
        } else if field.tag == 7 {
            match text_of(field.value) {
                None => None,
                Some(text) => Some(ModuleRefModel { embedded_symbol_path: Some(text), ..model }),
            }
        } else {
            Some(model)
        }
    }

    open spec fn field_fault(tag: u32, wire: u8, bytes: Seq<u8>, budget: nat) -> Option<
        FaultModel,
    > {
        if tag == 1 {
            placed(text_fault(wire, bytes), "ModuleRef.name"@)
        } else if tag == 2 {
            placed(number_fault(wire, bytes), "ModuleRef.base_avma"@)
        } else if tag == 3 {
            placed(text_fault(wire, bytes), "ModuleRef.code_id"@)
        } else if tag == 4 {
            placed(text_fault(wire, bytes), "ModuleRef.debug_id"@)
        } else if tag == 5 {
            placed(text_fault(wire, bytes), "ModuleRef.debug_file"@)
        } else if tag == 6 {
            placed(text_fault(wire, bytes), "ModuleRef.path_hint"@)
        } else if tag == 7 {
            placed(text_fault(wire, bytes), "ModuleRef.embedded_symbol_path"@)
        } else {
            unknown_fault(wire, tag, bytes, budget)
        }
    }

    open spec fn fields_model(model: ModuleRefModel) -> Seq<FieldModel> {
        text_piece(1, model.name)
            + number_piece(2, model.base_avma)
            + optional_text_piece(3, model.code_id)
            + optional_text_piece(4, model.debug_id)
            + optional_text_piece(5, model.debug_file)
            + optional_text_piece(6, model.path_hint)
            + optional_text_piece(7, model.embedded_symbol_path)
    }

    open spec fn height() -> nat {
        0
    }
}

impl WireMessage for ModuleRef {
    fn blank() -> (message: Self) {
        let message = ModuleRef {
            name: String::new(),
            base_avma: 0,
            code_id: None,
            debug_id: None,
            debug_file: None,
            path_hint: None,
            embedded_symbol_path: None,
        };
        assert(message.name@ =~= Seq::<char>::empty());
        message
    }

    fn merge(&mut self, field: Field, budget: u32) -> (merged: Option<()>) {
        match field.tag {
            1 => {
                self.name = take_text(field.value)?;
            },
            2 => {
                self.base_avma = take_number(field.value)?;
            },
            3 => {
                self.code_id = Some(take_text(field.value)?);
            },
            4 => {
                self.debug_id = Some(take_text(field.value)?);
            },
            5 => {
                self.debug_file = Some(take_text(field.value)?);
            },
            6 => {
                self.path_hint = Some(take_text(field.value)?);
            },
            7 => {
                self.embedded_symbol_path = Some(take_text(field.value)?);
            },
            _ => {},
        }
        Some(())
    }

    fn find_fault(tag: u32, wire: u8, bytes: &[u8], budget: u32) -> (fault: Option<DecodeFault>) {
        match tag {
            1 => find_text_fault(wire, bytes, "ModuleRef.name"),
            2 => find_number_fault(wire, bytes, "ModuleRef.base_avma"),
            3 => find_text_fault(wire, bytes, "ModuleRef.code_id"),
            4 => find_text_fault(wire, bytes, "ModuleRef.debug_id"),
            5 => find_text_fault(wire, bytes, "ModuleRef.debug_file"),
            6 => find_text_fault(wire, bytes, "ModuleRef.path_hint"),
            7 => find_text_fault(wire, bytes, "ModuleRef.embedded_symbol_path"),
            _ => find_unknown_fault(wire, tag, bytes, budget),
        }
    }

    fn fields(&self) -> (fields: Vec<Field>) {
        let mut fields: Vec<Field> = Vec::new();
        assert(field_models(fields@) =~= Seq::<FieldModel>::empty());
        put_text(&mut fields, 1, &self.name);
        assert(field_models(fields@) =~= text_piece(1, self.model().name));
        put_number(&mut fields, 2, self.base_avma);
        put_optional_text(&mut fields, 3, &self.code_id);
        put_optional_text(&mut fields, 4, &self.debug_id);
        put_optional_text(&mut fields, 5, &self.debug_file);
        put_optional_text(&mut fields, 6, &self.path_hint);
        put_optional_text(&mut fields, 7, &self.embedded_symbol_path);
        fields
    }

    proof fn fields_rebuild(model: ModuleRefModel, budget: nat) {
        let all = Self::fields_model(model);
        let blank = Self::blank_model();
        let p1 = text_piece(1, model.name);
        let s1 = p1;
        let p2 = number_piece(2, model.base_avma);
        let s2 = s1 + p2;
        let p3 = optional_text_piece(3, model.code_id);
        let s3 = s2 + p3;
        let p4 = optional_text_piece(4, model.debug_id);
        let s4 = s3 + p4;
        let p5 = optional_text_piece(5, model.debug_file);
        let s5 = s4 + p5;
        let p6 = optional_text_piece(6, model.path_hint);
        let s6 = s5 + p6;
        let p7 = optional_text_piece(7, model.embedded_symbol_path);
        let s7 = s6 + p7;
        lemma_run_sizes(s6, p7);
        lemma_run_sizes(s5, p6);
        lemma_run_sizes(s4, p5);
        lemma_run_sizes(s3, p4);
        lemma_run_sizes(s2, p3);
        lemma_run_sizes(s1, p2);
        let m1 = ModuleRefModel { name: model.name, ..blank };
        assert(declared(p1) && fold_fields::<Self>(blank, p1, budget) == Some(m1)) by {
            reveal(declared);
            lemma_text(model.name);
            lemma_fold_short::<Self>(blank, p1, budget);
        }
        let m2 = ModuleRefModel { base_avma: model.base_avma, ..m1 };
        assert(declared(p2) && fold_fields::<Self>(m1, p2, budget) == Some(m2)) by {
            reveal(declared);
            lemma_fold_short::<Self>(m1, p2, budget);
        }
        lemma_fold_grow::<Self>(blank, s1, m1, p2, m2, budget);
        let m3 = ModuleRefModel { code_id: model.code_id, ..m2 };
        assert(declared(p3) && fold_fields::<Self>(m2, p3, budget) == Some(m3)) by {
            reveal(declared);
            if model.code_id is Some {
                lemma_text(model.code_id->Some_0);
            }
            lemma_fold_short::<Self>(m2, p3, budget);
        }
        lemma_fold_grow::<Self>(blank, s2, m2, p3, m3, budget);
        let m4 = ModuleRefModel { debug_id: model.debug_id, ..m3 };
        assert(declared(p4) && fold_fields::<Self>(m3, p4, budget) == Some(m4)) by {
            reveal(declared);
            if model.debug_id is Some {
                lemma_text(model.debug_id->Some_0);
            }
            lemma_fold_short::<Self>(m3, p4, budget);
        }
        lemma_fold_grow::<Self>(blank, s3, m3, p4, m4, budget);
        let m5 = ModuleRefModel { debug_file: model.debug_file, ..m4 };
        assert(declared(p5) && fold_fields::<Self>(m4, p5, budget) == Some(m5)) by {
            reveal(declared);
            if model.debug_file is Some {
                lemma_text(model.debug_file->Some_0);
            }
            lemma_fold_short::<Self>(m4, p5, budget);
        }
        lemma_fold_grow::<Self>(blank, s4, m4, p5, m5, budget);
        let m6 = ModuleRefModel { path_hint: model.path_hint, ..m5 };
        assert(declared(p6) && fold_fields::<Self>(m5, p6, budget) == Some(m6)) by {
            reveal(declared);
            if model.path_hint is Some {
                lemma_text(model.path_hint->Some_0);
            }
            lemma_fold_short::<Self>(m5, p6, budget);
        }
        lemma_fold_grow::<Self>(blank, s5, m5, p6, m6, budget);
        let m7 = ModuleRefModel { embedded_symbol_path: model.embedded_symbol_path, ..m6 };
        assert(declared(p7) && fold_fields::<Self>(m6, p7, budget) == Some(m7)) by {
            reveal(declared);
            if model.embedded_symbol_path is Some {
                lemma_text(model.embedded_symbol_path->Some_0);
            }
            lemma_fold_short::<Self>(m6, p7, budget);
        }
        lemma_fold_grow::<Self>(blank, s6, m6, p7, m7, budget);
        assert(s7 == all);
        assert(m7 == model);
        lemma_declared_writable(all);
    }
}

impl Default for ModuleRef {
    fn default() -> (message: Self)
        ensures
            message.model() == Self::blank_model(),
    {
        Self::blank()
    }
}

/// Where the worker may look for symbol files beside the image.
#[derive(Clone, Debug, PartialEq, Eq)]
pub struct DiscoveryConfig {
    pub registered_manifest: Option<String>,
    pub registered_symbol_paths: Vec<String>,
}

/// Mathematical counterpart of [`DiscoveryConfig`].
pub struct DiscoveryConfigModel {
    pub registered_manifest: Option<Seq<char>>,
    pub registered_symbol_paths: Seq<Seq<char>>,
}

impl WireModel for DiscoveryConfig {
    type Model = DiscoveryConfigModel;

    open spec fn model(&self) -> DiscoveryConfigModel {
        DiscoveryConfigModel {
            registered_manifest: optional_text(self.registered_manifest),
            registered_symbol_paths: text_models(self.registered_symbol_paths@),
        }
    }

    open spec fn blank_model() -> DiscoveryConfigModel {
        DiscoveryConfigModel {
            registered_manifest: None,
            registered_symbol_paths: Seq::empty(),
        }
    }

    open spec fn merged(
        model: DiscoveryConfigModel,
        field: FieldModel,
        budget: nat,
    ) -> Option<DiscoveryConfigModel> {
        if field.tag == 1 {
            match text_of(field.value) {
                None => None,
                Some(text) => Some(
                    DiscoveryConfigModel { registered_manifest: Some(text), ..model },
                ),
            }
        } else if field.tag == 2 {
            match text_of(field.value) {
                None => None,
                Some(text) => Some(
                    DiscoveryConfigModel {
                        registered_symbol_paths: model.registered_symbol_paths.push(text),
                        ..model
                    },
                ),
            }
        } else {
            Some(model)
        }
    }

    open spec fn field_fault(tag: u32, wire: u8, bytes: Seq<u8>, budget: nat) -> Option<
        FaultModel,
    > {
        if tag == 1 {
            placed(text_fault(wire, bytes), "DiscoveryConfig.registered_manifest"@)
        } else if tag == 2 {
            placed(text_fault(wire, bytes), "DiscoveryConfig.registered_symbol_paths"@)
        } else {
            unknown_fault(wire, tag, bytes, budget)
        }
    }

    open spec fn fields_model(model: DiscoveryConfigModel) -> Seq<FieldModel> {
        optional_text_piece(1, model.registered_manifest)
            + texts_piece(2, model.registered_symbol_paths)
    }

    open spec fn height() -> nat {
        0
    }
}

impl WireMessage for DiscoveryConfig {
    fn blank() -> (message: Self) {
        let message = DiscoveryConfig {
            registered_manifest: None,
            registered_symbol_paths: Vec::new(),
        };
        assert(text_models(message.registered_symbol_paths@) =~= Seq::<Seq<char>>::empty());
        message
    }

    fn merge(&mut self, field: Field, budget: u32) -> (merged: Option<()>) {
        match field.tag {
            1 => {
                self.registered_manifest = Some(take_text(field.value)?);
            },
            2 => {
                let text = take_text(field.value)?;
                self.registered_symbol_paths.push(text);
                assert(text_models(self.registered_symbol_paths@)
                    =~= old(self).model().registered_symbol_paths.push(text@));
            },
            _ => {},
        }
        Some(())
    }

    fn find_fault(tag: u32, wire: u8, bytes: &[u8], budget: u32) -> (fault: Option<DecodeFault>) {
        match tag {
            1 => find_text_fault(wire, bytes, "DiscoveryConfig.registered_manifest"),
            2 => find_text_fault(wire, bytes, "DiscoveryConfig.registered_symbol_paths"),
            _ => find_unknown_fault(wire, tag, bytes, budget),
        }
    }

    fn fields(&self) -> (fields: Vec<Field>) {
        let mut fields: Vec<Field> = Vec::new();
        assert(field_models(fields@) =~= Seq::<FieldModel>::empty());
        put_optional_text(&mut fields, 1, &self.registered_manifest);
        assert(field_models(fields@) =~= optional_text_piece(1, self.model().registered_manifest));
        put_texts(&mut fields, 2, &self.registered_symbol_paths);
        fields
    }

    proof fn fields_rebuild(model: DiscoveryConfigModel, budget: nat) {
        let all = Self::fields_model(model);
        let blank = Self::blank_model();
        let p1 = optional_text_piece(1, model.registered_manifest);
        let s1 = p1;
        let p2 = texts_piece(2, model.registered_symbol_paths);
        let s2 = s1 + p2;
        lemma_run_sizes(s1, p2);
        let m1 = DiscoveryConfigModel { registered_manifest: model.registered_manifest, ..blank };
        assert(declared(p1) && fold_fields::<Self>(blank, p1, budget) == Some(m1)) by {
            reveal(declared);
            if model.registered_manifest is Some {
                lemma_text(model.registered_manifest->Some_0);
            }
            lemma_fold_short::<Self>(blank, p1, budget);
        }
        let m2 = DiscoveryConfigModel {
            registered_symbol_paths: model.registered_symbol_paths,
            ..m1
        };
        assert(declared(p2) && fold_fields::<Self>(m1, p2, budget) == Some(m2)) by {
            reveal(declared);
            let with = |items: Seq<Seq<char>>|
                DiscoveryConfigModel { registered_symbol_paths: items, ..m1 };
            assert forall|i: int| 0 <= i < model.registered_symbol_paths.len() implies
                Self::merged(with(model.registered_symbol_paths.take(i)), #[trigger] p2[i], budget)
                == Some(with(model.registered_symbol_paths.take(i + 1))) by {
                lemma_text(model.registered_symbol_paths[i]);
                assert(model.registered_symbol_paths.take(i).push(model.registered_symbol_paths[i])
                    =~= model.registered_symbol_paths.take(i + 1));
            }
            lemma_fold_repeated::<Self, Seq<char>>(p2, model.registered_symbol_paths, with, budget);
            assert(with(Seq::empty()) == m1);
        }
        lemma_fold_grow::<Self>(blank, s1, m1, p2, m2, budget);
        assert(s2 == all);
        assert(m2 == model);
        lemma_declared_writable(all);
    }
}

impl Default for DiscoveryConfig {
    fn default() -> (message: Self)
        ensures
            message.model() == Self::blank_model(),
    {
        Self::blank()
    }
}

/// One native frame: a module of the capture and an offset in it.
#[derive(Clone, Copy, Debug, PartialEq, Eq)]
pub struct RawFrame {
    pub module_index: u32,
    pub relative_address: u64,
}

/// Mathematical counterpart of [`RawFrame`].
pub struct RawFrameModel {
    pub module_index: u32,
    pub relative_address: u64,
}

impl WireModel for RawFrame {
    type Model = RawFrameModel;

    open spec fn model(&self) -> RawFrameModel {
        RawFrameModel {
            module_index: self.module_index,
            relative_address: self.relative_address,
        }
    }

    open spec fn blank_model() -> RawFrameModel {
        RawFrameModel {
            module_index: 0,
            relative_address: 0,
        }
    }

    open spec fn merged(
        model: RawFrameModel,
        field: FieldModel,
        budget: nat,
    ) -> Option<RawFrameModel> {
        if field.tag == 1 {
            match number_of(field.value) {
                None => None,
                Some(number) => Some(RawFrameModel { module_index: low32(number), ..model }),
            }
        } else if field.tag == 2 {
            match number_of(field.value) {
                None => None,
                Some(relative_address) => Some(RawFrameModel { relative_address, ..model }),
            }
        } else {
            Some(model)
        }
    }

    open spec fn field_fault(tag: u32, wire: u8, bytes: Seq<u8>, budget: nat) -> Option<
        FaultModel,
    > {
        if tag == 1 {
            placed(number_fault(wire, bytes), "RawFrame.module_index"@)
        } else if tag == 2 {
            placed(number_fault(wire, bytes), "RawFrame.relative_address"@)
        } else {
            unknown_fault(wire, tag, bytes, budget)
        }
    }

    open spec fn fields_model(model: RawFrameModel) -> Seq<FieldModel> {
        number_piece(1, model.module_index as u64)
            + number_piece(2, model.relative_address)
    }

    open spec fn height() -> nat {
        0
    }
}

impl WireMessage for RawFrame {
    fn blank() -> (message: Self) {
        let message = RawFrame { module_index: 0, relative_address: 0 };
        message
    }

    fn merge(&mut self, field: Field, budget: u32) -> (merged: Option<()>) {
        match field.tag {
            1 => {
                self.module_index = low_half(take_number(field.value)?);
            },
            2 => {
                self.relative_address = take_number(field.value)?;
            },
            _ => {},
        }
        Some(())
    }

    fn find_fault(tag: u32, wire: u8, bytes: &[u8], budget: u32) -> (fault: Option<DecodeFault>) {
        match tag {
            1 => find_number_fault(wire, bytes, "RawFrame.module_index"),
            2 => find_number_fault(wire, bytes, "RawFrame.relative_address"),
            _ => find_unknown_fault(wire, tag, bytes, budget),
        }
    }

    fn fields(&self) -> (fields: Vec<Field>) {
        let mut fields: Vec<Field> = Vec::new();
        assert(field_models(fields@) =~= Seq::<FieldModel>::empty());
        put_number(&mut fields, 1, self.module_index as u64);
        assert(field_models(fields@) =~= number_piece(1, self.model().module_index as u64));
        put_number(&mut fields, 2, self.relative_address);
        fields
    }

    proof fn fields_rebuild(model: RawFrameModel, budget: nat) {
        let all = Self::fields_model(model);
        let blank = Self::blank_model();
        let p1 = number_piece(1, model.module_index as u64);
        let s1 = p1;
        let p2 = number_piece(2, model.relative_address);
        let s2 = s1 + p2;
        lemma_run_sizes(s1, p2);
        let m1 = RawFrameModel { module_index: model.module_index, ..blank };
        assert(declared(p1) && fold_fields::<Self>(blank, p1, budget) == Some(m1)) by {
            reveal(declared);
            lemma_fold_short::<Self>(blank, p1, budget);
        }
        let m2 = RawFrameModel { relative_address: model.relative_address, ..m1 };
        assert(declared(p2) && fold_fields::<Self>(m1, p2, budget) == Some(m2)) by {
            reveal(declared);
            lemma_fold_short::<Self>(m1, p2, budget);
        }
        lemma_fold_grow::<Self>(blank, s1, m1, p2, m2, budget);
        assert(s2 == all);
        assert(m2 == model);
        lemma_declared_writable(all);
    }
}

impl Default for RawFrame {
    fn default() -> (message: Self)
        ensures
            message.model() == Self::blank_model(),
    {
        Self::blank()
    }
}

/// One interpreter frame.
#[derive(Clone, Debug, PartialEq, Eq)]
pub struct PyFrame {
    pub file: String,
    pub line: u32,
    pub func: String,
}

/// Mathematical counterpart of [`PyFrame`].
pub struct PyFrameModel {
    pub file: Seq<char>,
    pub line: u32,
    pub func: Seq<char>,
}

impl WireModel for PyFrame {
    type Model = PyFrameModel;

    open spec fn model(&self) -> PyFrameModel {
        PyFrameModel {
            file: self.file@,
            line: self.line,
            func: self.func@,
        }
    }

    open spec fn blank_model() -> PyFrameModel {
        PyFrameModel {
            file: Seq::empty(),
            line: 0,
            func: Seq::empty(),
        }
    }

    open spec fn merged(
        model: PyFrameModel,
        field: FieldModel,
        budget: nat,
    ) -> Option<PyFrameModel> {
        if field.tag == 1 {
            match text_of(field.value) {
                None => None,
                Some(file) => Some(PyFrameModel { file, ..model }),
            }
        } else if field.tag == 2 {
            match number_of(field.value) {
                None => None,
                Some(number) => Some(PyFrameModel { line: low32(number), ..model }),
            }
        } else if field.tag == 3 {
            match text_of(field.value) {
                None => None,
                Some(func) => Some(PyFrameModel { func, ..model }),
            }
        } else {
            Some(model)
        }
    }

    open spec fn field_fault(tag: u32, wire: u8, bytes: Seq<u8>, budget: nat) -> Option<
        FaultModel,
    > {
        if tag == 1 {
            placed(text_fault(wire, bytes), "PyFrame.file"@)
        } else if tag == 2 {
            placed(number_fault(wire, bytes), "PyFrame.line"@)
        } else if tag == 3 {
            placed(text_fault(wire, bytes), "PyFrame.func"@)
        } else {
            unknown_fault(wire, tag, bytes, budget)
        }
    }

    open spec fn fields_model(model: PyFrameModel) -> Seq<FieldModel> {
        text_piece(1, model.file)
            + number_piece(2, model.line as u64)
            + text_piece(3, model.func)
    }

    open spec fn height() -> nat {
        0
    }
}

impl WireMessage for PyFrame {
    fn blank() -> (message: Self) {
        let message = PyFrame { file: String::new(), line: 0, func: String::new() };
        assert(message.file@ =~= Seq::<char>::empty());
        assert(message.func@ =~= Seq::<char>::empty());
        message
    }

    fn merge(&mut self, field: Field, budget: u32) -> (merged: Option<()>) {
        match field.tag {
            1 => {
                self.file = take_text(field.value)?;
            },
            2 => {
                self.line = low_half(take_number(field.value)?);
            },
            3 => {
                self.func = take_text(field.value)?;
            },
            _ => {},
        }
        Some(())
    }

    fn find_fault(tag: u32, wire: u8, bytes: &[u8], budget: u32) -> (fault: Option<DecodeFault>) {
        match tag {
            1 => find_text_fault(wire, bytes, "PyFrame.file"),
            2 => find_number_fault(wire, bytes, "PyFrame.line"),
            3 => find_text_fault(wire, bytes, "PyFrame.func"),
            _ => find_unknown_fault(wire, tag, bytes, budget),
        }
    }

    fn fields(&self) -> (fields: Vec<Field>) {
        let mut fields: Vec<Field> = Vec::new();
        assert(field_models(fields@) =~= Seq::<FieldModel>::empty());
        put_text(&mut fields, 1, &self.file);
        assert(field_models(fields@) =~= text_piece(1, self.model().file));
        put_number(&mut fields, 2, self.line as u64);
        put_text(&mut fields, 3, &self.func);
        fields
    }

    proof fn fields_rebuild(model: PyFrameModel, budget: nat) {
        let all = Self::fields_model(model);
        let blank = Self::blank_model();
        let p1 = text_piece(1, model.file);
        let s1 = p1;
        let p2 = number_piece(2, model.line as u64);
        let s2 = s1 + p2;
        let p3 = text_piece(3, model.func);
        let s3 = s2 + p3;
        lemma_run_sizes(s2, p3);
        lemma_run_sizes(s1, p2);
        let m1 = PyFrameModel { file: model.file, ..blank };
        assert(declared(p1) && fold_fields::<Self>(blank, p1, budget) == Some(m1)) by {
            reveal(declared);
            lemma_text(model.file);
            lemma_fold_short::<Self>(blank, p1, budget);
        }
        let m2 = PyFrameModel { line: model.line, ..m1 };
        assert(declared(p2) && fold_fields::<Self>(m1, p2, budget) == Some(m2)) by {
            reveal(declared);
            lemma_fold_short::<Self>(m1, p2, budget);
        }
        lemma_fold_grow::<Self>(blank, s1, m1, p2, m2, budget);
        let m3 = PyFrameModel { func: model.func, ..m2 };
        assert(declared(p3) && fold_fields::<Self>(m2, p3, budget) == Some(m3)) by {
            reveal(declared);
            lemma_text(model.func);
            lemma_fold_short::<Self>(m2, p3, budget);
        }
        lemma_fold_grow::<Self>(blank, s2, m2, p3, m3, budget);
        assert(s3 == all);
        assert(m3 == model);
        lemma_declared_writable(all);
    }
}

impl Default for PyFrame {
    fn default() -> (message: Self)
        ensures
            message.model() == Self::blank_model(),
    {
        Self::blank()
    }
}

/// One thread of a capture, innermost frame first.
#[derive(Clone, Debug, PartialEq, Eq)]
pub struct RawThread {
    pub os_tid: u64,
    pub name: Option<String>,
    pub frames: Vec<RawFrame>,
    pub py_frames: Vec<PyFrame>,
}

/// Mathematical counterpart of [`RawThread`].
pub struct RawThreadModel {
    pub os_tid: u64,
    pub name: Option<Seq<char>>,
    pub frames: Seq<RawFrameModel>,
    pub py_frames: Seq<PyFrameModel>,
}

impl WireModel for RawThread {
    type Model = RawThreadModel;

    open spec fn model(&self) -> RawThreadModel {
        RawThreadModel {
            os_tid: self.os_tid,
            name: optional_text(self.name),
            frames: message_models::<RawFrame>(self.frames@),
            py_frames: message_models::<PyFrame>(self.py_frames@),
        }
    }

    open spec fn blank_model() -> RawThreadModel {
        RawThreadModel {
            os_tid: 0,
            name: None,
            frames: Seq::empty(),
            py_frames: Seq::empty(),
        }
    }

    open spec fn merged(
        model: RawThreadModel,
        field: FieldModel,
        budget: nat,
    ) -> Option<RawThreadModel> {
        if field.tag == 1 {
            match number_of(field.value) {
                None => None,
                Some(os_tid) => Some(RawThreadModel { os_tid, ..model }),
            }
        } else if field.tag == 2 {
            match text_of(field.value) {
                None => None,
                Some(text) => Some(RawThreadModel { name: Some(text), ..model }),
            }
        } else if field.tag == 3 {
            match nested::<RawFrame>(field.value, budget) {
                None => None,
                Some(item) => Some(RawThreadModel { frames: model.frames.push(item), ..model }),
            }
        } else if field.tag == 4 {
            match nested::<PyFrame>(field.value, budget) {
                None => None,
                Some(item) => Some(
                    RawThreadModel { py_frames: model.py_frames.push(item), ..model },
                ),
            }
        } else {
            Some(model)
        }
    }

    open spec fn field_fault(tag: u32, wire: u8, bytes: Seq<u8>, budget: nat) -> Option<
        FaultModel,
    > {
        if tag == 1 {
            placed(number_fault(wire, bytes), "RawThread.os_tid"@)
        } else if tag == 2 {
            placed(text_fault(wire, bytes), "RawThread.name"@)
        } else if tag == 3 {
            nested_fault::<RawFrame>(wire, bytes, budget, "RawThread.frames"@)
        } else if tag == 4 {
            nested_fault::<PyFrame>(wire, bytes, budget, "RawThread.py_frames"@)
        } else {
            unknown_fault(wire, tag, bytes, budget)
        }
    }

    open spec fn fields_model(model: RawThreadModel) -> Seq<FieldModel> {
        number_piece(1, model.os_tid)
            + optional_text_piece(2, model.name)
            + messages_piece::<RawFrame>(3, model.frames)
            + messages_piece::<PyFrame>(4, model.py_frames)
    }

    open spec fn height() -> nat {
        1
    }
}

impl WireMessage for RawThread {
    fn blank() -> (message: Self) {
        let message = RawThread {
            os_tid: 0,
            name: None,
            frames: Vec::new(),
            py_frames: Vec::new(),
        };
        assert(message_models::<RawFrame>(message.frames@) =~= Seq::<RawFrameModel>::empty());
        assert(message_models::<PyFrame>(message.py_frames@) =~= Seq::<PyFrameModel>::empty());
        message
    }

    fn merge(&mut self, field: Field, budget: u32) -> (merged: Option<()>) {
        match field.tag {
            1 => {
                self.os_tid = take_number(field.value)?;
            },
            2 => {
                self.name = Some(take_text(field.value)?);
            },
            3 => {
                let item = take_nested::<RawFrame>(field.value, budget)?;
                self.frames.push(item);
                assert(message_models::<RawFrame>(self.frames@)
                    =~= old(self).model().frames.push(item.model()));
            },
            4 => {
                let item = take_nested::<PyFrame>(field.value, budget)?;
                self.py_frames.push(item);
                assert(message_models::<PyFrame>(self.py_frames@)
                    =~= old(self).model().py_frames.push(item.model()));
            },
            _ => {},
        }
        Some(())
    }

    fn find_fault(tag: u32, wire: u8, bytes: &[u8], budget: u32) -> (fault: Option<DecodeFault>) {
        match tag {
            1 => find_number_fault(wire, bytes, "RawThread.os_tid"),
            2 => find_text_fault(wire, bytes, "RawThread.name"),
            3 => find_nested_fault::<RawFrame>(wire, bytes, budget, "RawThread.frames"),
            4 => find_nested_fault::<PyFrame>(wire, bytes, budget, "RawThread.py_frames"),
            _ => find_unknown_fault(wire, tag, bytes, budget),
        }
    }

    fn fields(&self) -> (fields: Vec<Field>) {
        let mut fields: Vec<Field> = Vec::new();
        assert(field_models(fields@) =~= Seq::<FieldModel>::empty());
        put_number(&mut fields, 1, self.os_tid);
        assert(field_models(fields@) =~= number_piece(1, self.model().os_tid));
        put_optional_text(&mut fields, 2, &self.name);
        put_messages(&mut fields, 3, &self.frames);
        put_messages(&mut fields, 4, &self.py_frames);
        fields
    }

    proof fn fields_rebuild(model: RawThreadModel, budget: nat) {
        let all = Self::fields_model(model);
        let blank = Self::blank_model();
        let p1 = number_piece(1, model.os_tid);
        let s1 = p1;
        let p2 = optional_text_piece(2, model.name);
        let s2 = s1 + p2;
        let p3 = messages_piece::<RawFrame>(3, model.frames);
        let s3 = s2 + p3;
        let p4 = messages_piece::<PyFrame>(4, model.py_frames);
        let s4 = s3 + p4;
        lemma_run_sizes(s3, p4);
        lemma_run_sizes(s2, p3);
        lemma_run_sizes(s1, p2);
        let m1 = RawThreadModel { os_tid: model.os_tid, ..blank };
        assert(declared(p1) && fold_fields::<Self>(blank, p1, budget) == Some(m1)) by {
            reveal(declared);
            lemma_fold_short::<Self>(blank, p1, budget);
        }
        let m2 = RawThreadModel { name: model.name, ..m1 };
        assert(declared(p2) && fold_fields::<Self>(m1, p2, budget) == Some(m2)) by {
            reveal(declared);
            if model.name is Some {
                lemma_text(model.name->Some_0);
            }
            lemma_fold_short::<Self>(m1, p2, budget);
        }
        lemma_fold_grow::<Self>(blank, s1, m1, p2, m2, budget);
        let m3 = RawThreadModel { frames: model.frames, ..m2 };
        assert(declared(p3) && fold_fields::<Self>(m2, p3, budget) == Some(m3)) by {
            reveal(declared);
            let with = |items: Seq<RawFrameModel>| RawThreadModel { frames: items, ..m2 };
            assert forall|i: int| 0 <= i < model.frames.len() implies
                Self::merged(with(model.frames.take(i)), #[trigger] p3[i], budget)
                == Some(with(model.frames.take(i + 1))) by {
                lemma_payload_within(p3, i);
                lemma_message_round_trip::<RawFrame>(model.frames[i], (budget - 1) as nat);
                assert(model.frames.take(i).push(model.frames[i]) =~= model.frames.take(i + 1));
            }
            lemma_fold_repeated::<Self, RawFrameModel>(p3, model.frames, with, budget);
            assert(with(Seq::empty()) == m2);
        }
        lemma_fold_grow::<Self>(blank, s2, m2, p3, m3, budget);
        let m4 = RawThreadModel { py_frames: model.py_frames, ..m3 };
        assert(declared(p4) && fold_fields::<Self>(m3, p4, budget) == Some(m4)) by {
            reveal(declared);
            let with = |items: Seq<PyFrameModel>| RawThreadModel { py_frames: items, ..m3 };
            assert forall|i: int| 0 <= i < model.py_frames.len() implies
                Self::merged(with(model.py_frames.take(i)), #[trigger] p4[i], budget)
                == Some(with(model.py_frames.take(i + 1))) by {
                lemma_payload_within(p4, i);
                lemma_message_round_trip::<PyFrame>(model.py_frames[i], (budget - 1) as nat);
                assert(model.py_frames.take(i).push(model.py_frames[i])
                    =~= model.py_frames.take(i + 1));
            }
            lemma_fold_repeated::<Self, PyFrameModel>(p4, model.py_frames, with, budget);
            assert(with(Seq::empty()) == m3);
        }
        lemma_fold_grow::<Self>(blank, s3, m3, p4, m4, budget);
        assert(s4 == all);
        assert(m4 == model);
        lemma_declared_writable(all);
    }
}

impl Default for RawThread {
    fn default() -> (message: Self)
        ensures
            message.model() == Self::blank_model(),
    {
        Self::blank()
    }
}

/// What was captured: images, and the addresses that threads were at.
#[derive(Clone, Debug, PartialEq, Eq)]
pub struct RawCapture {
    pub format: CaptureFormat,
    pub discovery: DiscoveryConfig,
    pub modules: Vec<ModuleRef>,
    pub threads: Vec<RawThread>,
}

/// Mathematical counterpart of [`RawCapture`].
pub struct RawCaptureModel {
    pub format: CaptureFormat,
    pub discovery: DiscoveryConfigModel,
    pub modules: Seq<ModuleRefModel>,
    pub threads: Seq<RawThreadModel>,
}

impl WireModel for RawCapture {
    type Model = RawCaptureModel;

    open spec fn model(&self) -> RawCaptureModel {
        RawCaptureModel {
            format: self.format,
            discovery: self.discovery.model(),
            modules: message_models::<ModuleRef>(self.modules@),
            threads: message_models::<RawThread>(self.threads@),
        }
    }

    open spec fn blank_model() -> RawCaptureModel {
        RawCaptureModel {
            format: CaptureFormat::CooperativeFrames,
            discovery: DiscoveryConfig::blank_model(),
            modules: Seq::empty(),
            threads: Seq::empty(),
        }
    }

    open spec fn merged(
        model: RawCaptureModel,
        field: FieldModel,
        budget: nat,
    ) -> Option<RawCaptureModel> {
        if field.tag == 1 {
            match number_of(field.value) {
                None => None,
                Some(number) => Some(RawCaptureModel { format: format_of(low32(number)), ..model }),
            }
        } else if field.tag == 2 {
            match nested_onto::<DiscoveryConfig>(model.discovery, field.value, budget) {
                None => None,
                Some(discovery) => Some(RawCaptureModel { discovery, ..model }),
            }
        } else if field.tag == 3 {
            match nested::<ModuleRef>(field.value, budget) {
                None => None,
                Some(item) => Some(RawCaptureModel { modules: model.modules.push(item), ..model }),
            }
        } else if field.tag == 4 {
            match nested::<RawThread>(field.value, budget) {
                None => None,
                Some(item) => Some(RawCaptureModel { threads: model.threads.push(item), ..model }),
            }
        } else {
            Some(model)
        }
    }

    open spec fn field_fault(tag: u32, wire: u8, bytes: Seq<u8>, budget: nat) -> Option<
        FaultModel,
    > {
        if tag == 1 {
            placed(number_fault(wire, bytes), "RawCapture.format"@)
        } else if tag == 2 {
            nested_fault::<DiscoveryConfig>(wire, bytes, budget, "RawCapture.discovery"@)
        } else if tag == 3 {
            nested_fault::<ModuleRef>(wire, bytes, budget, "RawCapture.modules"@)
        } else if tag == 4 {
            nested_fault::<RawThread>(wire, bytes, budget, "RawCapture.threads"@)
        } else {
            unknown_fault(wire, tag, bytes, budget)
        }
    }

    open spec fn fields_model(model: RawCaptureModel) -> Seq<FieldModel> {
        number_piece(1, format_number(model.format) as u64)
            + message_piece::<DiscoveryConfig>(2, model.discovery)
            + messages_piece::<ModuleRef>(3, model.modules)
            + messages_piece::<RawThread>(4, model.threads)
    }

    open spec fn height() -> nat {
        2
    }
}

impl WireMessage for RawCapture {
    fn blank() -> (message: Self) {
        let message = RawCapture {
            format: CaptureFormat::CooperativeFrames,
            discovery: DiscoveryConfig::blank(),
            modules: Vec::new(),
            threads: Vec::new(),
        };
        assert(message_models::<ModuleRef>(message.modules@) =~= Seq::<ModuleRefModel>::empty());
        assert(message_models::<RawThread>(message.threads@) =~= Seq::<RawThreadModel>::empty());
        message
    }

    fn merge(&mut self, field: Field, budget: u32) -> (merged: Option<()>) {
        match field.tag {
            1 => {
                self.format = CaptureFormat::from_number(low_half(take_number(field.value)?));
            },
            2 => {
                merge_nested(&mut self.discovery, field.value, budget)?;
            },
            3 => {
                let item = take_nested::<ModuleRef>(field.value, budget)?;
                self.modules.push(item);
                assert(message_models::<ModuleRef>(self.modules@)
                    =~= old(self).model().modules.push(item.model()));
            },
            4 => {
                let item = take_nested::<RawThread>(field.value, budget)?;
                self.threads.push(item);
                assert(message_models::<RawThread>(self.threads@)
                    =~= old(self).model().threads.push(item.model()));
            },
            _ => {},
        }
        Some(())
    }

    fn find_fault(tag: u32, wire: u8, bytes: &[u8], budget: u32) -> (fault: Option<DecodeFault>) {
        match tag {
            1 => find_number_fault(wire, bytes, "RawCapture.format"),
            2 => find_nested_fault::<DiscoveryConfig>(wire, bytes, budget, "RawCapture.discovery"),
            3 => find_nested_fault::<ModuleRef>(wire, bytes, budget, "RawCapture.modules"),
            4 => find_nested_fault::<RawThread>(wire, bytes, budget, "RawCapture.threads"),
            _ => find_unknown_fault(wire, tag, bytes, budget),
        }
    }

    fn fields(&self) -> (fields: Vec<Field>) {
        let mut fields: Vec<Field> = Vec::new();
        assert(field_models(fields@) =~= Seq::<FieldModel>::empty());
        put_number(&mut fields, 1, self.format.number() as u64);
        assert(field_models(fields@)
            =~= number_piece(1, format_number(self.model().format) as u64));
        put_message(&mut fields, 2, &self.discovery);
        put_messages(&mut fields, 3, &self.modules);
        put_messages(&mut fields, 4, &self.threads);
        fields
    }

    proof fn fields_rebuild(model: RawCaptureModel, budget: nat) {
        let all = Self::fields_model(model);
        let blank = Self::blank_model();
        let p1 = number_piece(1, format_number(model.format) as u64);
        let s1 = p1;
        let p2 = message_piece::<DiscoveryConfig>(2, model.discovery);
        let s2 = s1 + p2;
        let p3 = messages_piece::<ModuleRef>(3, model.modules);
        let s3 = s2 + p3;
        let p4 = messages_piece::<RawThread>(4, model.threads);
        let s4 = s3 + p4;
        lemma_run_sizes(s3, p4);
        lemma_run_sizes(s2, p3);
        lemma_run_sizes(s1, p2);
        let m1 = RawCaptureModel { format: model.format, ..blank };
        assert(declared(p1) && fold_fields::<Self>(blank, p1, budget) == Some(m1)) by {
            reveal(declared);
            lemma_fold_short::<Self>(blank, p1, budget);
        }
        let m2 = RawCaptureModel { discovery: model.discovery, ..m1 };
        assert(declared(p2) && fold_fields::<Self>(m1, p2, budget) == Some(m2)) by {
            reveal(declared);
            lemma_payload_within(p2, 0);
            lemma_message_round_trip::<DiscoveryConfig>(model.discovery, (budget - 1) as nat);
            lemma_fold_short::<Self>(m1, p2, budget);
        }
        lemma_fold_grow::<Self>(blank, s1, m1, p2, m2, budget);
        let m3 = RawCaptureModel { modules: model.modules, ..m2 };
        assert(declared(p3) && fold_fields::<Self>(m2, p3, budget) == Some(m3)) by {
            reveal(declared);
            let with = |items: Seq<ModuleRefModel>| RawCaptureModel { modules: items, ..m2 };
            assert forall|i: int| 0 <= i < model.modules.len() implies
                Self::merged(with(model.modules.take(i)), #[trigger] p3[i], budget)
                == Some(with(model.modules.take(i + 1))) by {
                lemma_payload_within(p3, i);
                lemma_message_round_trip::<ModuleRef>(model.modules[i], (budget - 1) as nat);
                assert(model.modules.take(i).push(model.modules[i]) =~= model.modules.take(i + 1));
            }
            lemma_fold_repeated::<Self, ModuleRefModel>(p3, model.modules, with, budget);
            assert(with(Seq::empty()) == m2);
        }
        lemma_fold_grow::<Self>(blank, s2, m2, p3, m3, budget);
        let m4 = RawCaptureModel { threads: model.threads, ..m3 };
        assert(declared(p4) && fold_fields::<Self>(m3, p4, budget) == Some(m4)) by {
            reveal(declared);
            let with = |items: Seq<RawThreadModel>| RawCaptureModel { threads: items, ..m3 };
            assert forall|i: int| 0 <= i < model.threads.len() implies
                Self::merged(with(model.threads.take(i)), #[trigger] p4[i], budget)
                == Some(with(model.threads.take(i + 1))) by {
                lemma_payload_within(p4, i);
                lemma_message_round_trip::<RawThread>(model.threads[i], (budget - 1) as nat);
                assert(model.threads.take(i).push(model.threads[i]) =~= model.threads.take(i + 1));
            }
            lemma_fold_repeated::<Self, RawThreadModel>(p4, model.threads, with, budget);
            assert(with(Seq::empty()) == m3);
        }
        lemma_fold_grow::<Self>(blank, s3, m3, p4, m4, budget);
        assert(s4 == all);
        assert(m4 == model);
        lemma_declared_writable(all);
    }
}

impl Default for RawCapture {
    fn default() -> (message: Self)
        ensures
            message.model() == Self::blank_model(),
    {
        Self::blank()
    }
}

/// A call that was inlined into a frame.
#[derive(Clone, Debug, PartialEq, Eq)]
pub struct InlineFrame {
    pub function: String,
    pub file: Option<String>,
    pub line: Option<u32>,
}

/// Mathematical counterpart of [`InlineFrame`].
pub struct InlineFrameModel {
    pub function: Seq<char>,
    pub file: Option<Seq<char>>,
    pub line: Option<u32>,
}

impl WireModel for InlineFrame {
    type Model = InlineFrameModel;

    open spec fn model(&self) -> InlineFrameModel {
        InlineFrameModel {
            function: self.function@,
            file: optional_text(self.file),
            line: self.line,
        }
    }

    open spec fn blank_model() -> InlineFrameModel {
        InlineFrameModel {
            function: Seq::empty(),
            file: None,
            line: None,
        }
    }

    open spec fn merged(
        model: InlineFrameModel,
        field: FieldModel,
        budget: nat,
    ) -> Option<InlineFrameModel> {
        if field.tag == 1 {
            match text_of(field.value) {
                None => None,
                Some(function) => Some(InlineFrameModel { function, ..model }),
            }
        } else if field.tag == 2 {
            match text_of(field.value) {
                None => None,
                Some(text) => Some(InlineFrameModel { file: Some(text), ..model }),
            }
        } else if field.tag == 3 {
            match number_of(field.value) {
                None => None,
                Some(number) => Some(InlineFrameModel { line: Some(low32(number)), ..model }),
            }
        } else {
            Some(model)
        }
    }

    open spec fn field_fault(tag: u32, wire: u8, bytes: Seq<u8>, budget: nat) -> Option<
        FaultModel,
    > {
        if tag == 1 {
            placed(text_fault(wire, bytes), "InlineFrame.function"@)
        } else if tag == 2 {
            placed(text_fault(wire, bytes), "InlineFrame.file"@)
        } else if tag == 3 {
            placed(number_fault(wire, bytes), "InlineFrame.line"@)
        } else {
            unknown_fault(wire, tag, bytes, budget)
        }
    }

    open spec fn fields_model(model: InlineFrameModel) -> Seq<FieldModel> {
        text_piece(1, model.function)
            + optional_text_piece(2, model.file)
            + optional_number_piece(3, model.line)
    }

    open spec fn height() -> nat {
        0
    }
}

impl WireMessage for InlineFrame {
    fn blank() -> (message: Self) {
        let message = InlineFrame { function: String::new(), file: None, line: None };
        assert(message.function@ =~= Seq::<char>::empty());
        message
    }

    fn merge(&mut self, field: Field, budget: u32) -> (merged: Option<()>) {
        match field.tag {
            1 => {
                self.function = take_text(field.value)?;
            },
            2 => {
                self.file = Some(take_text(field.value)?);
            },
            3 => {
                self.line = Some(low_half(take_number(field.value)?));
            },
            _ => {},
        }
        Some(())
    }

    fn find_fault(tag: u32, wire: u8, bytes: &[u8], budget: u32) -> (fault: Option<DecodeFault>) {
        match tag {
            1 => find_text_fault(wire, bytes, "InlineFrame.function"),
            2 => find_text_fault(wire, bytes, "InlineFrame.file"),
            3 => find_number_fault(wire, bytes, "InlineFrame.line"),
            _ => find_unknown_fault(wire, tag, bytes, budget),
        }
    }

    fn fields(&self) -> (fields: Vec<Field>) {
        let mut fields: Vec<Field> = Vec::new();
        assert(field_models(fields@) =~= Seq::<FieldModel>::empty());
        put_text(&mut fields, 1, &self.function);
        assert(field_models(fields@) =~= text_piece(1, self.model().function));
        put_optional_text(&mut fields, 2, &self.file);
        put_optional_number(&mut fields, 3, self.line);
        fields
    }

    proof fn fields_rebuild(model: InlineFrameModel, budget: nat) {
        let all = Self::fields_model(model);
        let blank = Self::blank_model();
        let p1 = text_piece(1, model.function);
        let s1 = p1;
        let p2 = optional_text_piece(2, model.file);
        let s2 = s1 + p2;
        let p3 = optional_number_piece(3, model.line);
        let s3 = s2 + p3;
        lemma_run_sizes(s2, p3);
        lemma_run_sizes(s1, p2);
        let m1 = InlineFrameModel { function: model.function, ..blank };
        assert(declared(p1) && fold_fields::<Self>(blank, p1, budget) == Some(m1)) by {
            reveal(declared);
            lemma_text(model.function);
            lemma_fold_short::<Self>(blank, p1, budget);
        }
        let m2 = InlineFrameModel { file: model.file, ..m1 };
        assert(declared(p2) && fold_fields::<Self>(m1, p2, budget) == Some(m2)) by {
            reveal(declared);
            if model.file is Some {
                lemma_text(model.file->Some_0);
            }
            lemma_fold_short::<Self>(m1, p2, budget);
        }
        lemma_fold_grow::<Self>(blank, s1, m1, p2, m2, budget);
        let m3 = InlineFrameModel { line: model.line, ..m2 };
        assert(declared(p3) && fold_fields::<Self>(m2, p3, budget) == Some(m3)) by {
            reveal(declared);
            lemma_fold_short::<Self>(m2, p3, budget);
        }
        lemma_fold_grow::<Self>(blank, s2, m2, p3, m3, budget);
        assert(s3 == all);
        assert(m3 == model);
        lemma_declared_writable(all);
    }
}

impl Default for InlineFrame {
    fn default() -> (message: Self)
        ensures
            message.model() == Self::blank_model(),
    {
        Self::blank()
    }
}

/// One native frame after symbolization.
#[derive(Clone, Debug, PartialEq, Eq)]
pub struct SymFrame {
    pub module: String,
    pub relative_address: u64,
    pub function: Option<String>,
    pub file: Option<String>,
    pub line: Option<u32>,
    pub inline_frames: Vec<InlineFrame>,
    pub status: FrameStatus,
}

/// Mathematical counterpart of [`SymFrame`].
pub struct SymFrameModel {
    pub module: Seq<char>,
    pub relative_address: u64,
    pub function: Option<Seq<char>>,
    pub file: Option<Seq<char>>,
    pub line: Option<u32>,
    pub inline_frames: Seq<InlineFrameModel>,
    pub status: FrameStatus,
}

impl WireModel for SymFrame {
    type Model = SymFrameModel;

    open spec fn model(&self) -> SymFrameModel {
        SymFrameModel {
            module: self.module@,
            relative_address: self.relative_address,
            function: optional_text(self.function),
            file: optional_text(self.file),
            line: self.line,
            inline_frames: message_models::<InlineFrame>(self.inline_frames@),
            status: self.status,
        }
    }

    open spec fn blank_model() -> SymFrameModel {
        SymFrameModel {
            module: Seq::empty(),
            relative_address: 0,
            function: None,
            file: None,
            line: None,
            inline_frames: Seq::empty(),
            status: FrameStatus::RawOnly,
        }
    }

    open spec fn merged(
        model: SymFrameModel,
        field: FieldModel,
        budget: nat,
    ) -> Option<SymFrameModel> {
        if field.tag == 1 {
            match text_of(field.value) {
                None => None,
                Some(module) => Some(SymFrameModel { module, ..model }),
            }
        } else if field.tag == 2 {
            match number_of(field.value) {
                None => None,
                Some(relative_address) => Some(SymFrameModel { relative_address, ..model }),
            }
        } else if field.tag == 3 {
            match text_of(field.value) {
                None => None,
                Some(text) => Some(SymFrameModel { function: Some(text), ..model }),
            }
        } else if field.tag == 4 {
            match text_of(field.value) {
                None => None,
                Some(text) => Some(SymFrameModel { file: Some(text), ..model }),
            }
        } else if field.tag == 5 {
            match number_of(field.value) {
                None => None,
                Some(number) => Some(SymFrameModel { line: Some(low32(number)), ..model }),
            }
        } else if field.tag == 6 {
            match nested::<InlineFrame>(field.value, budget) {
                None => None,
                Some(item) => Some(
                    SymFrameModel { inline_frames: model.inline_frames.push(item), ..model },
                ),
            }
        } else if field.tag == 7 {
            match number_of(field.value) {
                None => None,
                Some(number) => Some(
                    SymFrameModel { status: frame_status_of(low32(number)), ..model },
                ),
            }
        } else {
            Some(model)
        }
    }

    open spec fn field_fault(tag: u32, wire: u8, bytes: Seq<u8>, budget: nat) -> Option<
        FaultModel,
    > {
        if tag == 1 {
            placed(text_fault(wire, bytes), "SymFrame.module"@)
        } else if tag == 2 {
            placed(number_fault(wire, bytes), "SymFrame.relative_address"@)
        } else if tag == 3 {
            placed(text_fault(wire, bytes), "SymFrame.function"@)
        } else if tag == 4 {
            placed(text_fault(wire, bytes), "SymFrame.file"@)
        } else if tag == 5 {
            placed(number_fault(wire, bytes), "SymFrame.line"@)
        } else if tag == 6 {
            nested_fault::<InlineFrame>(wire, bytes, budget, "SymFrame.inline_frames"@)
        } else if tag == 7 {
            placed(number_fault(wire, bytes), "SymFrame.status"@)
        } else {
            unknown_fault(wire, tag, bytes, budget)
        }
    }

    open spec fn fields_model(model: SymFrameModel) -> Seq<FieldModel> {
        text_piece(1, model.module)
            + number_piece(2, model.relative_address)
            + optional_text_piece(3, model.function)
            + optional_text_piece(4, model.file)
            + optional_number_piece(5, model.line)
            + messages_piece::<InlineFrame>(6, model.inline_frames)
            + number_piece(7, frame_status_number(model.status) as u64)
    }

    open spec fn height() -> nat {
        1
    }
}

impl WireMessage for SymFrame {
    fn blank() -> (message: Self) {
        let message = SymFrame {
            module: String::new(),
            relative_address: 0,
            function: None,
            file: None,
            line: None,
            inline_frames: Vec::new(),
            status: FrameStatus::RawOnly,
        };
        assert(message.module@ =~= Seq::<char>::empty());
        assert(message_models::<InlineFrame>(message.inline_frames@)
            =~= Seq::<InlineFrameModel>::empty());
        message
    }

    fn merge(&mut self, field: Field, budget: u32) -> (merged: Option<()>) {
        match field.tag {
            1 => {
                self.module = take_text(field.value)?;
            },
            2 => {
                self.relative_address = take_number(field.value)?;
            },
            3 => {
                self.function = Some(take_text(field.value)?);
            },
            4 => {
                self.file = Some(take_text(field.value)?);
            },
            5 => {
                self.line = Some(low_half(take_number(field.value)?));
            },
            6 => {
                let item = take_nested::<InlineFrame>(field.value, budget)?;
                self.inline_frames.push(item);
                assert(message_models::<InlineFrame>(self.inline_frames@)
                    =~= old(self).model().inline_frames.push(item.model()));
            },
            7 => {
                self.status = FrameStatus::from_number(low_half(take_number(field.value)?));
            },
            _ => {},
        }
        Some(())
    }

    fn find_fault(tag: u32, wire: u8, bytes: &[u8], budget: u32) -> (fault: Option<DecodeFault>) {
        match tag {
            1 => find_text_fault(wire, bytes, "SymFrame.module"),
            2 => find_number_fault(wire, bytes, "SymFrame.relative_address"),
            3 => find_text_fault(wire, bytes, "SymFrame.function"),
            4 => find_text_fault(wire, bytes, "SymFrame.file"),
            5 => find_number_fault(wire, bytes, "SymFrame.line"),
            6 => find_nested_fault::<InlineFrame>(wire, bytes, budget, "SymFrame.inline_frames"),
            7 => find_number_fault(wire, bytes, "SymFrame.status"),
            _ => find_unknown_fault(wire, tag, bytes, budget),
        }
    }

    fn fields(&self) -> (fields: Vec<Field>) {
        let mut fields: Vec<Field> = Vec::new();
        assert(field_models(fields@) =~= Seq::<FieldModel>::empty());
        put_text(&mut fields, 1, &self.module);
        assert(field_models(fields@) =~= text_piece(1, self.model().module));
        put_number(&mut fields, 2, self.relative_address);
        put_optional_text(&mut fields, 3, &self.function);
        put_optional_text(&mut fields, 4, &self.file);
        put_optional_number(&mut fields, 5, self.line);
        put_messages(&mut fields, 6, &self.inline_frames);
        put_number(&mut fields, 7, self.status.number() as u64);
        fields
    }

    proof fn fields_rebuild(model: SymFrameModel, budget: nat) {
        let all = Self::fields_model(model);
        let blank = Self::blank_model();
        let p1 = text_piece(1, model.module);
        let s1 = p1;
        let p2 = number_piece(2, model.relative_address);
        let s2 = s1 + p2;
        let p3 = optional_text_piece(3, model.function);
        let s3 = s2 + p3;
        let p4 = optional_text_piece(4, model.file);
        let s4 = s3 + p4;
        let p5 = optional_number_piece(5, model.line);
        let s5 = s4 + p5;
        let p6 = messages_piece::<InlineFrame>(6, model.inline_frames);
        let s6 = s5 + p6;
        let p7 = number_piece(7, frame_status_number(model.status) as u64);
        let s7 = s6 + p7;
        lemma_run_sizes(s6, p7);
        lemma_run_sizes(s5, p6);
        lemma_run_sizes(s4, p5);
        lemma_run_sizes(s3, p4);
        lemma_run_sizes(s2, p3);
        lemma_run_sizes(s1, p2);
        let m1 = SymFrameModel { module: model.module, ..blank };
        assert(declared(p1) && fold_fields::<Self>(blank, p1, budget) == Some(m1)) by {
            reveal(declared);
            lemma_text(model.module);
            lemma_fold_short::<Self>(blank, p1, budget);
        }
        let m2 = SymFrameModel { relative_address: model.relative_address, ..m1 };
        assert(declared(p2) && fold_fields::<Self>(m1, p2, budget) == Some(m2)) by {
            reveal(declared);
            lemma_fold_short::<Self>(m1, p2, budget);
        }
        lemma_fold_grow::<Self>(blank, s1, m1, p2, m2, budget);
        let m3 = SymFrameModel { function: model.function, ..m2 };
        assert(declared(p3) && fold_fields::<Self>(m2, p3, budget) == Some(m3)) by {
            reveal(declared);
            if model.function is Some {
                lemma_text(model.function->Some_0);
            }
            lemma_fold_short::<Self>(m2, p3, budget);
        }
        lemma_fold_grow::<Self>(blank, s2, m2, p3, m3, budget);
        let m4 = SymFrameModel { file: model.file, ..m3 };
        assert(declared(p4) && fold_fields::<Self>(m3, p4, budget) == Some(m4)) by {
            reveal(declared);
            if model.file is Some {
                lemma_text(model.file->Some_0);
            }
            lemma_fold_short::<Self>(m3, p4, budget);
        }
        lemma_fold_grow::<Self>(blank, s3, m3, p4, m4, budget);
        let m5 = SymFrameModel { line: model.line, ..m4 };
        assert(declared(p5) && fold_fields::<Self>(m4, p5, budget) == Some(m5)) by {
            reveal(declared);
            lemma_fold_short::<Self>(m4, p5, budget);
        }
        lemma_fold_grow::<Self>(blank, s4, m4, p5, m5, budget);
        let m6 = SymFrameModel { inline_frames: model.inline_frames, ..m5 };
        assert(declared(p6) && fold_fields::<Self>(m5, p6, budget) == Some(m6)) by {
            reveal(declared);
            let with = |items: Seq<InlineFrameModel>| SymFrameModel { inline_frames: items, ..m5 };
            assert forall|i: int| 0 <= i < model.inline_frames.len() implies
                Self::merged(with(model.inline_frames.take(i)), #[trigger] p6[i], budget)
                == Some(with(model.inline_frames.take(i + 1))) by {
                lemma_payload_within(p6, i);
                lemma_message_round_trip::<InlineFrame>(
                    model.inline_frames[i],
                    (budget - 1) as nat,
                );
                assert(model.inline_frames.take(i).push(model.inline_frames[i])
                    =~= model.inline_frames.take(i + 1));
            }
            lemma_fold_repeated::<Self, InlineFrameModel>(p6, model.inline_frames, with, budget);
            assert(with(Seq::empty()) == m5);
        }
        lemma_fold_grow::<Self>(blank, s5, m5, p6, m6, budget);
        let m7 = SymFrameModel { status: model.status, ..m6 };
        assert(declared(p7) && fold_fields::<Self>(m6, p7, budget) == Some(m7)) by {
            reveal(declared);
            lemma_fold_short::<Self>(m6, p7, budget);
        }
        lemma_fold_grow::<Self>(blank, s6, m6, p7, m7, budget);
        assert(s7 == all);
        assert(m7 == model);
        lemma_declared_writable(all);
    }
}

impl Default for SymFrame {
    fn default() -> (message: Self)
        ensures
            message.model() == Self::blank_model(),
    {
        Self::blank()
    }
}

/// One thread after symbolization.
#[derive(Clone, Debug, PartialEq, Eq)]
pub struct SymThread {
    pub os_tid: u64,
    pub name: Option<String>,
    pub frames: Vec<SymFrame>,
    pub py_frames: Vec<PyFrame>,
}

/// Mathematical counterpart of [`SymThread`].
pub struct SymThreadModel {
    pub os_tid: u64,
    pub name: Option<Seq<char>>,
    pub frames: Seq<SymFrameModel>,
    pub py_frames: Seq<PyFrameModel>,
}

impl WireModel for SymThread {
    type Model = SymThreadModel;

    open spec fn model(&self) -> SymThreadModel {
        SymThreadModel {
            os_tid: self.os_tid,
            name: optional_text(self.name),
            frames: message_models::<SymFrame>(self.frames@),
            py_frames: message_models::<PyFrame>(self.py_frames@),
        }
    }

    open spec fn blank_model() -> SymThreadModel {
        SymThreadModel {
            os_tid: 0,
            name: None,
            frames: Seq::empty(),
            py_frames: Seq::empty(),
        }
    }

    open spec fn merged(
        model: SymThreadModel,
        field: FieldModel,
        budget: nat,
    ) -> Option<SymThreadModel> {
        if field.tag == 1 {
            match number_of(field.value) {
                None => None,
                Some(os_tid) => Some(SymThreadModel { os_tid, ..model }),
            }
        } else if field.tag == 2 {
            match text_of(field.value) {
                None => None,
                Some(text) => Some(SymThreadModel { name: Some(text), ..model }),
            }
        } else if field.tag == 3 {
            match nested::<SymFrame>(field.value, budget) {
                None => None,
                Some(item) => Some(SymThreadModel { frames: model.frames.push(item), ..model }),
            }
        } else if field.tag == 4 {
            match nested::<PyFrame>(field.value, budget) {
                None => None,
                Some(item) => Some(
                    SymThreadModel { py_frames: model.py_frames.push(item), ..model },
                ),
            }
        } else {
            Some(model)
        }
    }

    open spec fn field_fault(tag: u32, wire: u8, bytes: Seq<u8>, budget: nat) -> Option<
        FaultModel,
    > {
        if tag == 1 {
            placed(number_fault(wire, bytes), "SymThread.os_tid"@)
        } else if tag == 2 {
            placed(text_fault(wire, bytes), "SymThread.name"@)
        } else if tag == 3 {
            nested_fault::<SymFrame>(wire, bytes, budget, "SymThread.frames"@)
        } else if tag == 4 {
            nested_fault::<PyFrame>(wire, bytes, budget, "SymThread.py_frames"@)
        } else {
            unknown_fault(wire, tag, bytes, budget)
        }
    }

    open spec fn fields_model(model: SymThreadModel) -> Seq<FieldModel> {
        number_piece(1, model.os_tid)
            + optional_text_piece(2, model.name)
            + messages_piece::<SymFrame>(3, model.frames)
            + messages_piece::<PyFrame>(4, model.py_frames)
    }

    open spec fn height() -> nat {
        2
    }
}

impl WireMessage for SymThread {
    fn blank() -> (message: Self) {
        let message = SymThread {
            os_tid: 0,
            name: None,
            frames: Vec::new(),
            py_frames: Vec::new(),
        };
        assert(message_models::<SymFrame>(message.frames@) =~= Seq::<SymFrameModel>::empty());
        assert(message_models::<PyFrame>(message.py_frames@) =~= Seq::<PyFrameModel>::empty());
        message
    }

    fn merge(&mut self, field: Field, budget: u32) -> (merged: Option<()>) {
        match field.tag {
            1 => {
                self.os_tid = take_number(field.value)?;
            },
            2 => {
                self.name = Some(take_text(field.value)?);
            },
            3 => {
                let item = take_nested::<SymFrame>(field.value, budget)?;
                self.frames.push(item);
                assert(message_models::<SymFrame>(self.frames@)
                    =~= old(self).model().frames.push(item.model()));
            },
            4 => {
                let item = take_nested::<PyFrame>(field.value, budget)?;
                self.py_frames.push(item);
                assert(message_models::<PyFrame>(self.py_frames@)
                    =~= old(self).model().py_frames.push(item.model()));
            },
            _ => {},
        }
        Some(())
    }

    fn find_fault(tag: u32, wire: u8, bytes: &[u8], budget: u32) -> (fault: Option<DecodeFault>) {
        match tag {
            1 => find_number_fault(wire, bytes, "SymThread.os_tid"),
            2 => find_text_fault(wire, bytes, "SymThread.name"),
            3 => find_nested_fault::<SymFrame>(wire, bytes, budget, "SymThread.frames"),
            4 => find_nested_fault::<PyFrame>(wire, bytes, budget, "SymThread.py_frames"),
            _ => find_unknown_fault(wire, tag, bytes, budget),
        }
    }

    fn fields(&self) -> (fields: Vec<Field>) {
        let mut fields: Vec<Field> = Vec::new();
        assert(field_models(fields@) =~= Seq::<FieldModel>::empty());
        put_number(&mut fields, 1, self.os_tid);
        assert(field_models(fields@) =~= number_piece(1, self.model().os_tid));
        put_optional_text(&mut fields, 2, &self.name);
        put_messages(&mut fields, 3, &self.frames);
        put_messages(&mut fields, 4, &self.py_frames);
        fields
    }

    proof fn fields_rebuild(model: SymThreadModel, budget: nat) {
        let all = Self::fields_model(model);
        let blank = Self::blank_model();
        let p1 = number_piece(1, model.os_tid);
        let s1 = p1;
        let p2 = optional_text_piece(2, model.name);
        let s2 = s1 + p2;
        let p3 = messages_piece::<SymFrame>(3, model.frames);
        let s3 = s2 + p3;
        let p4 = messages_piece::<PyFrame>(4, model.py_frames);
        let s4 = s3 + p4;
        lemma_run_sizes(s3, p4);
        lemma_run_sizes(s2, p3);
        lemma_run_sizes(s1, p2);
        let m1 = SymThreadModel { os_tid: model.os_tid, ..blank };
        assert(declared(p1) && fold_fields::<Self>(blank, p1, budget) == Some(m1)) by {
            reveal(declared);
            lemma_fold_short::<Self>(blank, p1, budget);
        }
        let m2 = SymThreadModel { name: model.name, ..m1 };
        assert(declared(p2) && fold_fields::<Self>(m1, p2, budget) == Some(m2)) by {
            reveal(declared);
            if model.name is Some {
                lemma_text(model.name->Some_0);
            }
            lemma_fold_short::<Self>(m1, p2, budget);
        }
        lemma_fold_grow::<Self>(blank, s1, m1, p2, m2, budget);
        let m3 = SymThreadModel { frames: model.frames, ..m2 };
        assert(declared(p3) && fold_fields::<Self>(m2, p3, budget) == Some(m3)) by {
            reveal(declared);
            let with = |items: Seq<SymFrameModel>| SymThreadModel { frames: items, ..m2 };
            assert forall|i: int| 0 <= i < model.frames.len() implies
                Self::merged(with(model.frames.take(i)), #[trigger] p3[i], budget)
                == Some(with(model.frames.take(i + 1))) by {
                lemma_payload_within(p3, i);
                lemma_message_round_trip::<SymFrame>(model.frames[i], (budget - 1) as nat);
                assert(model.frames.take(i).push(model.frames[i]) =~= model.frames.take(i + 1));
            }
            lemma_fold_repeated::<Self, SymFrameModel>(p3, model.frames, with, budget);
            assert(with(Seq::empty()) == m2);
        }
        lemma_fold_grow::<Self>(blank, s2, m2, p3, m3, budget);
        let m4 = SymThreadModel { py_frames: model.py_frames, ..m3 };
        assert(declared(p4) && fold_fields::<Self>(m3, p4, budget) == Some(m4)) by {
            reveal(declared);
            let with = |items: Seq<PyFrameModel>| SymThreadModel { py_frames: items, ..m3 };
            assert forall|i: int| 0 <= i < model.py_frames.len() implies
                Self::merged(with(model.py_frames.take(i)), #[trigger] p4[i], budget)
                == Some(with(model.py_frames.take(i + 1))) by {
                lemma_payload_within(p4, i);
                lemma_message_round_trip::<PyFrame>(model.py_frames[i], (budget - 1) as nat);
                assert(model.py_frames.take(i).push(model.py_frames[i])
                    =~= model.py_frames.take(i + 1));
            }
            lemma_fold_repeated::<Self, PyFrameModel>(p4, model.py_frames, with, budget);
            assert(with(Seq::empty()) == m3);
        }
        lemma_fold_grow::<Self>(blank, s3, m3, p4, m4, budget);
        assert(s4 == all);
        assert(m4 == model);
        lemma_declared_writable(all);
    }
}

impl Default for SymThread {
    fn default() -> (message: Self)
        ensures
            message.model() == Self::blank_model(),
    {
        Self::blank()
    }
}

/// What became of one image.
#[derive(Clone, Debug, PartialEq, Eq)]
pub struct ModuleReport {
    pub name: String,
    pub status: ModuleSymbolStatus,
    /// The file that the symbols came from.
    pub symbol_file: Option<String>,
    /// How that file was found.
    pub symbol_source: Option<DiscoverySource>,
    /// How many files were looked at and turned down.
    pub rejected_candidates: usize,
}

/// Mathematical counterpart of [`ModuleReport`].
pub struct ModuleReportModel {
    pub name: Seq<char>,
    pub status: ModuleSymbolStatus,
    pub symbol_file: Option<Seq<char>>,
    pub symbol_source: Option<DiscoverySource>,
    pub rejected_candidates: usize,
}

impl WireModel for ModuleReport {
    type Model = ModuleReportModel;

    open spec fn model(&self) -> ModuleReportModel {
        ModuleReportModel {
            name: self.name@,
            status: self.status,
            symbol_file: optional_text(self.symbol_file),
            symbol_source: self.symbol_source,
            rejected_candidates: self.rejected_candidates,
        }
    }

    open spec fn blank_model() -> ModuleReportModel {
        ModuleReportModel {
            name: Seq::empty(),
            status: ModuleSymbolStatus::NotFound,
            symbol_file: None,
            symbol_source: None,
            rejected_candidates: 0,
        }
    }

    open spec fn merged(
        model: ModuleReportModel,
        field: FieldModel,
        budget: nat,
    ) -> Option<ModuleReportModel> {
        if field.tag == 1 {
            match text_of(field.value) {
                None => None,
                Some(name) => Some(ModuleReportModel { name, ..model }),
            }
        } else if field.tag == 2 {
            match number_of(field.value) {
                None => None,
                Some(number) => Some(
                    ModuleReportModel { status: module_status_of(low32(number)), ..model },
                ),
            }
        } else if field.tag == 3 {
            match text_of(field.value) {
                None => None,
                Some(text) => Some(ModuleReportModel { symbol_file: Some(text), ..model }),
            }
        } else if field.tag == 4 {
            match number_of(field.value) {
                None => None,
                Some(number) => Some(
                    ModuleReportModel { symbol_source: source_of(low32(number)), ..model },
                ),
            }
        } else if field.tag == 5 {
            match number_of(field.value) {
                None => None,
                Some(number) => Some(
                    ModuleReportModel { rejected_candidates: saturated(number), ..model },
                ),
            }
        } else {
            Some(model)
        }
    }

    open spec fn field_fault(tag: u32, wire: u8, bytes: Seq<u8>, budget: nat) -> Option<
        FaultModel,
    > {
        if tag == 1 {
            placed(text_fault(wire, bytes), "ModuleReport.name"@)
        } else if tag == 2 {
            placed(number_fault(wire, bytes), "ModuleReport.status"@)
        } else if tag == 3 {
            placed(text_fault(wire, bytes), "ModuleReport.symbol_file"@)
        } else if tag == 4 {
            placed(number_fault(wire, bytes), "ModuleReport.symbol_source"@)
        } else if tag == 5 {
            placed(number_fault(wire, bytes), "ModuleReport.rejected_candidates"@)
        } else {
            unknown_fault(wire, tag, bytes, budget)
        }
    }

    open spec fn fields_model(model: ModuleReportModel) -> Seq<FieldModel> {
        text_piece(1, model.name)
            + number_piece(2, module_status_number(model.status) as u64)
            + optional_text_piece(3, model.symbol_file)
            + optional_number_piece(4, optional_source_number(model.symbol_source))
            + number_piece(5, model.rejected_candidates as u64)
    }

    open spec fn height() -> nat {
        0
    }
}

impl WireMessage for ModuleReport {
    fn blank() -> (message: Self) {
        let message = ModuleReport {
            name: String::new(),
            status: ModuleSymbolStatus::NotFound,
            symbol_file: None,
            symbol_source: None,
            rejected_candidates: 0,
        };
        assert(message.name@ =~= Seq::<char>::empty());
        message
    }

    fn merge(&mut self, field: Field, budget: u32) -> (merged: Option<()>) {
        match field.tag {
            1 => {
                self.name = take_text(field.value)?;
            },
            2 => {
                self.status = ModuleSymbolStatus::from_number(low_half(take_number(field.value)?));
            },
            3 => {
                self.symbol_file = Some(take_text(field.value)?);
            },
            4 => {
                self.symbol_source = DiscoverySource::from_number(
                    low_half(take_number(field.value)?),
                );
            },
            5 => {
                self.rejected_candidates = saturate(take_number(field.value)?);
            },
            _ => {},
        }
        Some(())
    }

    fn find_fault(tag: u32, wire: u8, bytes: &[u8], budget: u32) -> (fault: Option<DecodeFault>) {
        match tag {
            1 => find_text_fault(wire, bytes, "ModuleReport.name"),
            2 => find_number_fault(wire, bytes, "ModuleReport.status"),
            3 => find_text_fault(wire, bytes, "ModuleReport.symbol_file"),
            4 => find_number_fault(wire, bytes, "ModuleReport.symbol_source"),
            5 => find_number_fault(wire, bytes, "ModuleReport.rejected_candidates"),
            _ => find_unknown_fault(wire, tag, bytes, budget),
        }
    }

    fn fields(&self) -> (fields: Vec<Field>) {
        let mut fields: Vec<Field> = Vec::new();
        assert(field_models(fields@) =~= Seq::<FieldModel>::empty());
        put_text(&mut fields, 1, &self.name);
        assert(field_models(fields@) =~= text_piece(1, self.model().name));
        put_number(&mut fields, 2, self.status.number() as u64);
        put_optional_text(&mut fields, 3, &self.symbol_file);
        put_optional_number(&mut fields, 4, optional_number(self.symbol_source));
        put_number(&mut fields, 5, self.rejected_candidates as u64);
        fields
    }

    proof fn fields_rebuild(model: ModuleReportModel, budget: nat) {
        let all = Self::fields_model(model);
        let blank = Self::blank_model();
        let p1 = text_piece(1, model.name);
        let s1 = p1;
        let p2 = number_piece(2, module_status_number(model.status) as u64);
        let s2 = s1 + p2;
        let p3 = optional_text_piece(3, model.symbol_file);
        let s3 = s2 + p3;
        let p4 = optional_number_piece(4, optional_source_number(model.symbol_source));
        let s4 = s3 + p4;
        let p5 = number_piece(5, model.rejected_candidates as u64);
        let s5 = s4 + p5;
        lemma_run_sizes(s4, p5);
        lemma_run_sizes(s3, p4);
        lemma_run_sizes(s2, p3);
        lemma_run_sizes(s1, p2);
        let m1 = ModuleReportModel { name: model.name, ..blank };
        assert(declared(p1) && fold_fields::<Self>(blank, p1, budget) == Some(m1)) by {
            reveal(declared);
            lemma_text(model.name);
            lemma_fold_short::<Self>(blank, p1, budget);
        }
        let m2 = ModuleReportModel { status: model.status, ..m1 };
        assert(declared(p2) && fold_fields::<Self>(m1, p2, budget) == Some(m2)) by {
            reveal(declared);
            lemma_fold_short::<Self>(m1, p2, budget);
        }
        lemma_fold_grow::<Self>(blank, s1, m1, p2, m2, budget);
        let m3 = ModuleReportModel { symbol_file: model.symbol_file, ..m2 };
        assert(declared(p3) && fold_fields::<Self>(m2, p3, budget) == Some(m3)) by {
            reveal(declared);
            if model.symbol_file is Some {
                lemma_text(model.symbol_file->Some_0);
            }
            lemma_fold_short::<Self>(m2, p3, budget);
        }
        lemma_fold_grow::<Self>(blank, s2, m2, p3, m3, budget);
        let m4 = ModuleReportModel { symbol_source: model.symbol_source, ..m3 };
        assert(declared(p4) && fold_fields::<Self>(m3, p4, budget) == Some(m4)) by {
            reveal(declared);
            lemma_fold_short::<Self>(m3, p4, budget);
        }
        lemma_fold_grow::<Self>(blank, s3, m3, p4, m4, budget);
        let m5 = ModuleReportModel { rejected_candidates: model.rejected_candidates, ..m4 };
        assert(declared(p5) && fold_fields::<Self>(m4, p5, budget) == Some(m5)) by {
            reveal(declared);
            lemma_fold_short::<Self>(m4, p5, budget);
        }
        lemma_fold_grow::<Self>(blank, s4, m4, p5, m5, budget);
        assert(s5 == all);
        assert(m5 == model);
        lemma_declared_writable(all);
    }
}

impl Default for ModuleReport {
    fn default() -> (message: Self)
        ensures
            message.model() == Self::blank_model(),
    {
        Self::blank()
    }
}

/// The answer of the worker to a capture.
#[derive(Clone, Debug, PartialEq, Eq)]
pub struct SymbolReport {
    pub threads: Vec<SymThread>,
    pub modules: Vec<ModuleReport>,
}

/// Mathematical counterpart of [`SymbolReport`].
pub struct SymbolReportModel {
    pub threads: Seq<SymThreadModel>,
    pub modules: Seq<ModuleReportModel>,
}

impl WireModel for SymbolReport {
    type Model = SymbolReportModel;

    open spec fn model(&self) -> SymbolReportModel {
        SymbolReportModel {
            threads: message_models::<SymThread>(self.threads@),
            modules: message_models::<ModuleReport>(self.modules@),
        }
    }

    open spec fn blank_model() -> SymbolReportModel {
        SymbolReportModel {
            threads: Seq::empty(),
            modules: Seq::empty(),
        }
    }

    open spec fn merged(
        model: SymbolReportModel,
        field: FieldModel,
        budget: nat,
    ) -> Option<SymbolReportModel> {
        if field.tag == 1 {
            match nested::<SymThread>(field.value, budget) {
                None => None,
                Some(item) => Some(
                    SymbolReportModel { threads: model.threads.push(item), ..model },
                ),
            }
        } else if field.tag == 2 {
            match nested::<ModuleReport>(field.value, budget) {
                None => None,
                Some(item) => Some(
                    SymbolReportModel { modules: model.modules.push(item), ..model },
                ),
            }
        } else {
            Some(model)
        }
    }

    open spec fn field_fault(tag: u32, wire: u8, bytes: Seq<u8>, budget: nat) -> Option<
        FaultModel,
    > {
        if tag == 1 {
            nested_fault::<SymThread>(wire, bytes, budget, "SymbolReport.threads"@)
        } else if tag == 2 {
            nested_fault::<ModuleReport>(wire, bytes, budget, "SymbolReport.modules"@)
        } else {
            unknown_fault(wire, tag, bytes, budget)
        }
    }

    open spec fn fields_model(model: SymbolReportModel) -> Seq<FieldModel> {
        messages_piece::<SymThread>(1, model.threads)
            + messages_piece::<ModuleReport>(2, model.modules)
    }

    open spec fn height() -> nat {
        3
    }
}

impl WireMessage for SymbolReport {
    fn blank() -> (message: Self) {
        let message = SymbolReport { threads: Vec::new(), modules: Vec::new() };
        assert(message_models::<SymThread>(message.threads@) =~= Seq::<SymThreadModel>::empty());
        assert(message_models::<ModuleReport>(message.modules@)
            =~= Seq::<ModuleReportModel>::empty());
        message
    }

    fn merge(&mut self, field: Field, budget: u32) -> (merged: Option<()>) {
        match field.tag {
            1 => {
                let item = take_nested::<SymThread>(field.value, budget)?;
                self.threads.push(item);
                assert(message_models::<SymThread>(self.threads@)
                    =~= old(self).model().threads.push(item.model()));
            },
            2 => {
                let item = take_nested::<ModuleReport>(field.value, budget)?;
                self.modules.push(item);
                assert(message_models::<ModuleReport>(self.modules@)
                    =~= old(self).model().modules.push(item.model()));
            },
            _ => {},
        }
        Some(())
    }

    fn find_fault(tag: u32, wire: u8, bytes: &[u8], budget: u32) -> (fault: Option<DecodeFault>) {
        match tag {
            1 => find_nested_fault::<SymThread>(wire, bytes, budget, "SymbolReport.threads"),
            2 => find_nested_fault::<ModuleReport>(wire, bytes, budget, "SymbolReport.modules"),
            _ => find_unknown_fault(wire, tag, bytes, budget),
        }
    }

    fn fields(&self) -> (fields: Vec<Field>) {
        let mut fields: Vec<Field> = Vec::new();
        assert(field_models(fields@) =~= Seq::<FieldModel>::empty());
        put_messages(&mut fields, 1, &self.threads);
        assert(field_models(fields@) =~= messages_piece::<SymThread>(1, self.model().threads));
        put_messages(&mut fields, 2, &self.modules);
        fields
    }

    proof fn fields_rebuild(model: SymbolReportModel, budget: nat) {
        let all = Self::fields_model(model);
        let blank = Self::blank_model();
        let p1 = messages_piece::<SymThread>(1, model.threads);
        let s1 = p1;
        let p2 = messages_piece::<ModuleReport>(2, model.modules);
        let s2 = s1 + p2;
        lemma_run_sizes(s1, p2);
        let m1 = SymbolReportModel { threads: model.threads, ..blank };
        assert(declared(p1) && fold_fields::<Self>(blank, p1, budget) == Some(m1)) by {
            reveal(declared);
            let with = |items: Seq<SymThreadModel>| SymbolReportModel { threads: items, ..blank };
            assert forall|i: int| 0 <= i < model.threads.len() implies
                Self::merged(with(model.threads.take(i)), #[trigger] p1[i], budget)
                == Some(with(model.threads.take(i + 1))) by {
                lemma_payload_within(p1, i);
                lemma_message_round_trip::<SymThread>(model.threads[i], (budget - 1) as nat);
                assert(model.threads.take(i).push(model.threads[i]) =~= model.threads.take(i + 1));
            }
            lemma_fold_repeated::<Self, SymThreadModel>(p1, model.threads, with, budget);
            assert(with(Seq::empty()) == blank);
        }
        let m2 = SymbolReportModel { modules: model.modules, ..m1 };
        assert(declared(p2) && fold_fields::<Self>(m1, p2, budget) == Some(m2)) by {
            reveal(declared);
            let with = |items: Seq<ModuleReportModel>| SymbolReportModel { modules: items, ..m1 };
            assert forall|i: int| 0 <= i < model.modules.len() implies
                Self::merged(with(model.modules.take(i)), #[trigger] p2[i], budget)
                == Some(with(model.modules.take(i + 1))) by {
                lemma_payload_within(p2, i);
                lemma_message_round_trip::<ModuleReport>(model.modules[i], (budget - 1) as nat);
                assert(model.modules.take(i).push(model.modules[i]) =~= model.modules.take(i + 1));
            }
            lemma_fold_repeated::<Self, ModuleReportModel>(p2, model.modules, with, budget);
            assert(with(Seq::empty()) == m1);
        }
        lemma_fold_grow::<Self>(blank, s1, m1, p2, m2, budget);
        assert(s2 == all);
        assert(m2 == model);
        lemma_declared_writable(all);
    }
}

impl Default for SymbolReport {
    fn default() -> (message: Self)
        ensures
            message.model() == Self::blank_model(),
    {
        Self::blank()
    }
}

// ---------------------------------------------------------------------------
// The two messages that cross the process boundary
// ---------------------------------------------------------------------------

/// Bytes that are not a message of this contract.
#[derive(Clone, Debug)]
pub struct WireError {
    fault: DecodeFault,
}

impl WireError {
    /// What is wrong with the bytes, and where.
    pub closed spec fn spec_fault(&self) -> FaultModel {
        self.fault@
    }

    pub open spec fn text(&self) -> Seq<char> {
        "invalid kernal-api symbolization protobuf: "@ + self.spec_fault().text()
    }

    pub fn fault(&self) -> (fault: WireFault)
        ensures
            fault == self.spec_fault().kind,
    {
        self.fault.kind
    }

    /// A sentence for people.
    pub fn message(&self) -> (text: String)
        ensures
            text@ == self.text(),
    {
        join2(
            "invalid kernal-api symbolization protobuf: ",
            self.fault.message().as_str(),
        )
    }
}

impl RawCapture {
    /// This capture in bytes.
    pub fn encode_wire(&self) -> (bytes: Vec<u8>)
        ensures
            bytes@ == encoded::<RawCapture>(self.model()),
    {
        encode_message(self)
    }

    /// The capture that `bytes` stand for. Unknown fields and enum values are
    /// passed over; anything malformed is an error.
    pub fn decode_wire(bytes: &[u8]) -> (capture: Result<Self, WireError>)
        ensures
            match capture {
                Ok(capture) => decoded::<RawCapture>(bytes@, RECURSION_LIMIT as nat) == Some(
                    capture.model(),
                ),
                Err(error) => decoded::<RawCapture>(bytes@, RECURSION_LIMIT as nat) is None
                    && decode_fault::<RawCapture>(bytes@, RECURSION_LIMIT as nat) == Some(
                    error.spec_fault(),
                ),
            },
    {
        match decode_message::<RawCapture>(bytes, RECURSION_LIMIT) {
            Ok(capture) => Ok(capture),
            Err(fault) => Err(WireError { fault }),
        }
    }
}

impl SymbolReport {
    /// This report in bytes.
    pub fn encode_wire(&self) -> (bytes: Vec<u8>)
        ensures
            bytes@ == encoded::<SymbolReport>(self.model()),
    {
        encode_message(self)
    }

    /// The report that `bytes` stand for. Unknown fields and enum values are
    /// passed over; anything malformed is an error.
    pub fn decode_wire(bytes: &[u8]) -> (report: Result<Self, WireError>)
        ensures
            match report {
                Ok(report) => decoded::<SymbolReport>(bytes@, RECURSION_LIMIT as nat) == Some(
                    report.model(),
                ),
                Err(error) => decoded::<SymbolReport>(bytes@, RECURSION_LIMIT as nat) is None
                    && decode_fault::<SymbolReport>(bytes@, RECURSION_LIMIT as nat) == Some(
                    error.spec_fault(),
                ),
            },
    {
        match decode_message::<SymbolReport>(bytes, RECURSION_LIMIT) {
            Ok(report) => Ok(report),
            Err(fault) => Err(WireError { fault }),
        }
    }
}

/// A capture that was written is read back as it was.
pub proof fn capture_round_trip(capture: RawCaptureModel)
    requires
        encoded::<RawCapture>(capture).len() <= u64::MAX,
    ensures
        decoded::<RawCapture>(encoded::<RawCapture>(capture), RECURSION_LIMIT as nat) == Some(
            capture,
        ),
{
    lemma_message_round_trip::<RawCapture>(capture, RECURSION_LIMIT as nat);
}

/// A report that was written is read back as it was.
pub proof fn report_round_trip(report: SymbolReportModel)
    requires
        encoded::<SymbolReport>(report).len() <= u64::MAX,
    ensures
        decoded::<SymbolReport>(encoded::<SymbolReport>(report), RECURSION_LIMIT as nat) == Some(
            report,
        ),
{
    lemma_message_round_trip::<SymbolReport>(report, RECURSION_LIMIT as nat);
}

/// Two captures that differ are written differently.
pub proof fn capture_encoding_is_injective(first: RawCaptureModel, second: RawCaptureModel)
    requires
        encoded::<RawCapture>(first).len() <= u64::MAX,
        encoded::<RawCapture>(first) == encoded::<RawCapture>(second),
    ensures
        first == second,
{
    capture_round_trip(first);
    capture_round_trip(second);
}

/// No bytes at all stand for the capture in which everything is at its default.
pub proof fn empty_capture_is_blank()
    ensures
        decoded::<RawCapture>(Seq::empty(), RECURSION_LIMIT as nat) == Some(
            RawCapture::blank_model(),
        ),
{
    lemma_fold_short::<RawCapture>(
        RawCapture::blank_model(),
        Seq::empty(),
        RECURSION_LIMIT as nat,
    );
}

/// A field that a later release added to captures is passed over, wherever it
/// stands among the others.
pub proof fn capture_ignores_added_fields(
    before: Seq<FieldModel>,
    added: FieldModel,
    after: Seq<FieldModel>,
)
    requires
        added.tag > 4,
        writable(added),
        forall|i: int| 0 <= i < before.len() ==> writable(#[trigger] before[i]),
        forall|i: int| 0 <= i < after.len() ==> writable(#[trigger] after[i]),
    ensures
        decoded::<RawCapture>(write_fields(before + seq![added] + after), RECURSION_LIMIT as nat)
            == decoded::<RawCapture>(write_fields(before + after), RECURSION_LIMIT as nat),
{
    lemma_added_field::<RawCapture>(before, added, after, RECURSION_LIMIT as nat);
}

/// A field that a later release added to reports is passed over, wherever it
/// stands among the others.
pub proof fn report_ignores_added_fields(
    before: Seq<FieldModel>,
    added: FieldModel,
    after: Seq<FieldModel>,
)
    requires
        added.tag > 2,
        writable(added),
        forall|i: int| 0 <= i < before.len() ==> writable(#[trigger] before[i]),
        forall|i: int| 0 <= i < after.len() ==> writable(#[trigger] after[i]),
    ensures
        decoded::<SymbolReport>(write_fields(before + seq![added] + after), RECURSION_LIMIT as nat)
            == decoded::<SymbolReport>(write_fields(before + after), RECURSION_LIMIT as nat),
{
    lemma_added_field::<SymbolReport>(before, added, after, RECURSION_LIMIT as nat);
}

proof fn lemma_added_field<M: WireModel>(
    before: Seq<FieldModel>,
    added: FieldModel,
    after: Seq<FieldModel>,
    budget: nat,
)
    requires
        forall|model: M::Model| #[trigger] M::merged(model, added, budget) == Some(model),
        writable(added),
        forall|i: int| 0 <= i < before.len() ==> writable(#[trigger] before[i]),
        forall|i: int| 0 <= i < after.len() ==> writable(#[trigger] after[i]),
    ensures
        decoded::<M>(write_fields(before + seq![added] + after), budget) == decoded::<M>(
            write_fields(before + after),
            budget,
        ),
{
    let blank = M::blank_model();
    lemma_fields_round_trip(before + seq![added] + after, budget);
    lemma_fields_round_trip(before + after, budget);
    lemma_fold_concat::<M>(blank, before + seq![added], after, budget);
    lemma_fold_concat::<M>(blank, before, seq![added], budget);
    lemma_fold_concat::<M>(blank, before, after, budget);
    match fold_fields::<M>(blank, before, budget) {
        None => {},
        Some(middle) => lemma_fold_short::<M>(middle, seq![added], budget),
    }
}

/// A number that no release so far has given a meaning degrades to the value
/// that claims least, and never to a resolution.
pub proof fn unknown_numbers_claim_nothing(number: u32)
    ensures
        number > 1 ==> format_of(number) == CaptureFormat::CooperativeFrames,
        number > 2 ==> frame_status_of(number) == FrameStatus::RawOnly,
        number > 4 ==> module_status_of(number) == ModuleSymbolStatus::NotFound,
        number > 6 ==> source_of(number) is None,
        frame_status_of(number) == FrameStatus::Resolved ==> number == 1,
        module_status_of(number) == ModuleSymbolStatus::Resolved ==> number == 1,
{
}

// ---------------------------------------------------------------------------
// The published numbers of fields
// ---------------------------------------------------------------------------

/// A field of a `ModuleRef` sets the member that its published number stands for, and no other.
pub proof fn module_ref_fields_are_known_by_number(
    model: ModuleRefModel,
    text: Seq<char>,
    number: u64,
    bytes: Seq<u8>,
    value: ValueModel,
    other: u32,
    budget: nat,
)
    ensures
        ModuleRef::merged(
            model,
            (FieldModel { tag: 1, value: ValueModel::Bytes(encode_utf8(text)) }),
            budget,
        ) == Some(ModuleRefModel { name: text, ..model }),
        !valid_utf8(bytes) ==> ModuleRef::merged(
            model,
            (FieldModel { tag: 1, value: ValueModel::Bytes(bytes) }),
            budget,
        ) is None,
        ModuleRef::merged(
            model,
            (FieldModel { tag: 1, value: ValueModel::Varint(number) }),
            budget,
        ) is None,
        ModuleRef::merged(
            model,
            (FieldModel { tag: 2, value: ValueModel::Varint(number) }),
            budget,
        ) == Some(ModuleRefModel { base_avma: number, ..model }),
        ModuleRef::merged(
            model,
            (FieldModel { tag: 2, value: ValueModel::Bytes(bytes) }),
            budget,
        ) is None,
        ModuleRef::merged(
            model,
            (FieldModel { tag: 3, value: ValueModel::Bytes(encode_utf8(text)) }),
            budget,
        ) == Some(ModuleRefModel { code_id: Some(text), ..model }),
        !valid_utf8(bytes) ==> ModuleRef::merged(
            model,
            (FieldModel { tag: 3, value: ValueModel::Bytes(bytes) }),
            budget,
        ) is None,
        ModuleRef::merged(
            model,
            (FieldModel { tag: 3, value: ValueModel::Varint(number) }),
            budget,
        ) is None,
        ModuleRef::merged(
            model,
            (FieldModel { tag: 4, value: ValueModel::Bytes(encode_utf8(text)) }),
            budget,
        ) == Some(ModuleRefModel { debug_id: Some(text), ..model }),
        !valid_utf8(bytes) ==> ModuleRef::merged(
            model,
            (FieldModel { tag: 4, value: ValueModel::Bytes(bytes) }),
            budget,
        ) is None,
        ModuleRef::merged(
            model,
            (FieldModel { tag: 4, value: ValueModel::Varint(number) }),
            budget,
        ) is None,
        ModuleRef::merged(
            model,
            (FieldModel { tag: 5, value: ValueModel::Bytes(encode_utf8(text)) }),
            budget,
        ) == Some(ModuleRefModel { debug_file: Some(text), ..model }),
        !valid_utf8(bytes) ==> ModuleRef::merged(
            model,
            (FieldModel { tag: 5, value: ValueModel::Bytes(bytes) }),
            budget,
        ) is None,
        ModuleRef::merged(
            model,
            (FieldModel { tag: 5, value: ValueModel::Varint(number) }),
            budget,
        ) is None,
        ModuleRef::merged(
            model,
            (FieldModel { tag: 6, value: ValueModel::Bytes(encode_utf8(text)) }),
            budget,
        ) == Some(ModuleRefModel { path_hint: Some(text), ..model }),
        !valid_utf8(bytes) ==> ModuleRef::merged(
            model,
            (FieldModel { tag: 6, value: ValueModel::Bytes(bytes) }),
            budget,
        ) is None,
        ModuleRef::merged(
            model,
            (FieldModel { tag: 6, value: ValueModel::Varint(number) }),
            budget,
        ) is None,
        ModuleRef::merged(
            model,
            (FieldModel { tag: 7, value: ValueModel::Bytes(encode_utf8(text)) }),
            budget,
        ) == Some(ModuleRefModel { embedded_symbol_path: Some(text), ..model }),
        !valid_utf8(bytes) ==> ModuleRef::merged(
            model,
            (FieldModel { tag: 7, value: ValueModel::Bytes(bytes) }),
            budget,
        ) is None,
        ModuleRef::merged(
            model,
            (FieldModel { tag: 7, value: ValueModel::Varint(number) }),
            budget,
        ) is None,
        other == 0 || other > 7 ==> ModuleRef::merged(
            model,
            (FieldModel { tag: other, value }),
            budget,
        ) == Some(model),
        1 <= other <= 7 ==> ModuleRef::merged(
            model,
            (FieldModel { tag: other, value: ValueModel::Other }),
            budget,
        ) is None,
{
    lemma_text(text);
}

/// A `ModuleRef` is written with every member under its published number, and with nothing under
/// any other.
pub proof fn module_ref_members_are_written_by_number(model: ModuleRefModel, other: u32)
    ensures
        payloads(ModuleRef::fields_model(model), 1) == (
            if model.name.len() == 0 { Seq::empty() } else {
                seq![ValueModel::Bytes(encode_utf8(model.name))]
            }
        ),
        payloads(ModuleRef::fields_model(model), 2) == (
            if model.base_avma == 0 { Seq::empty() } else {
                seq![ValueModel::Varint(model.base_avma as u64)]
            }
        ),
        payloads(ModuleRef::fields_model(model), 3) == (
            match model.code_id {
                Some(text) => seq![ValueModel::Bytes(encode_utf8(text))],
                None => Seq::empty(),
            }
        ),
        payloads(ModuleRef::fields_model(model), 4) == (
            match model.debug_id {
                Some(text) => seq![ValueModel::Bytes(encode_utf8(text))],
                None => Seq::empty(),
            }
        ),
        payloads(ModuleRef::fields_model(model), 5) == (
            match model.debug_file {
                Some(text) => seq![ValueModel::Bytes(encode_utf8(text))],
                None => Seq::empty(),
            }
        ),
        payloads(ModuleRef::fields_model(model), 6) == (
            match model.path_hint {
                Some(text) => seq![ValueModel::Bytes(encode_utf8(text))],
                None => Seq::empty(),
            }
        ),
        payloads(ModuleRef::fields_model(model), 7) == (
            match model.embedded_symbol_path {
                Some(text) => seq![ValueModel::Bytes(encode_utf8(text))],
                None => Seq::empty(),
            }
        ),
        other == 0 || other > 7 ==> payloads(
            ModuleRef::fields_model(model),
            other,
        ) == Seq::<ValueModel>::empty(),
{
    let p0 = text_piece(1, model.name);
    lemma_payloads_uniform(p0, 1);
    let p1 = number_piece(2, model.base_avma);
    lemma_payloads_uniform(p1, 2);
    let p2 = optional_text_piece(3, model.code_id);
    lemma_payloads_uniform(p2, 3);
    let p3 = optional_text_piece(4, model.debug_id);
    lemma_payloads_uniform(p3, 4);
    let p4 = optional_text_piece(5, model.debug_file);
    lemma_payloads_uniform(p4, 5);
    let p5 = optional_text_piece(6, model.path_hint);
    lemma_payloads_uniform(p5, 6);
    let p6 = optional_text_piece(7, model.embedded_symbol_path);
    lemma_payloads_uniform(p6, 7);
    let s1 = p0 + p1;
    lemma_payloads_concat(p0, p1);
    let s2 = s1 + p2;
    lemma_payloads_concat(s1, p2);
    let s3 = s2 + p3;
    lemma_payloads_concat(s2, p3);
    let s4 = s3 + p4;
    lemma_payloads_concat(s3, p4);
    let s5 = s4 + p5;
    lemma_payloads_concat(s4, p5);
    let s6 = s5 + p6;
    lemma_payloads_concat(s5, p6);
    assert(ModuleRef::fields_model(model) == s6);
    assert(
        payloads(ModuleRef::fields_model(model), 1) =~= (
            if model.name.len() == 0 { Seq::empty() } else {
                seq![ValueModel::Bytes(encode_utf8(model.name))]
            }
        )
    );
    assert(
        payloads(ModuleRef::fields_model(model), 2) =~= (
            if model.base_avma == 0 { Seq::empty() } else {
                seq![ValueModel::Varint(model.base_avma as u64)]
            }
        )
    );
    assert(
        payloads(ModuleRef::fields_model(model), 3) =~= (
            match model.code_id {
                Some(text) => seq![ValueModel::Bytes(encode_utf8(text))],
                None => Seq::empty(),
            }
        )
    );
    assert(
        payloads(ModuleRef::fields_model(model), 4) =~= (
            match model.debug_id {
                Some(text) => seq![ValueModel::Bytes(encode_utf8(text))],
                None => Seq::empty(),
            }
        )
    );
    assert(
        payloads(ModuleRef::fields_model(model), 5) =~= (
            match model.debug_file {
                Some(text) => seq![ValueModel::Bytes(encode_utf8(text))],
                None => Seq::empty(),
            }
        )
    );
    assert(
        payloads(ModuleRef::fields_model(model), 6) =~= (
            match model.path_hint {
                Some(text) => seq![ValueModel::Bytes(encode_utf8(text))],
                None => Seq::empty(),
            }
        )
    );
    assert(
        payloads(ModuleRef::fields_model(model), 7) =~= (
            match model.embedded_symbol_path {
                Some(text) => seq![ValueModel::Bytes(encode_utf8(text))],
                None => Seq::empty(),
            }
        )
    );
    if other == 0 || other > 7 {
        assert(payloads(ModuleRef::fields_model(model), other) =~= Seq::<ValueModel>::empty());
    }
}

/// What a `ModuleRef` shows is what its members are.
pub proof fn module_ref_shows_its_members(message: ModuleRef)
    ensures
        message.model().name == message.name@,
        message.model().base_avma == message.base_avma,
        message.model().code_id == match message.code_id {
            Some(text) => Some(text@),
            None => None,
        },
        message.model().debug_id == match message.debug_id {
            Some(text) => Some(text@),
            None => None,
        },
        message.model().debug_file == match message.debug_file {
            Some(text) => Some(text@),
            None => None,
        },
        message.model().path_hint == match message.path_hint {
            Some(text) => Some(text@),
            None => None,
        },
        message.model().embedded_symbol_path == match message.embedded_symbol_path {
            Some(text) => Some(text@),
            None => None,
        },
{
}

/// A field of a `DiscoveryConfig` sets the member that its published number stands for, and no other.
pub proof fn discovery_config_fields_are_known_by_number(
    model: DiscoveryConfigModel,
    text: Seq<char>,
    number: u64,
    bytes: Seq<u8>,
    value: ValueModel,
    other: u32,
    budget: nat,
)
    ensures
        DiscoveryConfig::merged(
            model,
            (FieldModel { tag: 1, value: ValueModel::Bytes(encode_utf8(text)) }),
            budget,
        ) == Some(DiscoveryConfigModel { registered_manifest: Some(text), ..model }),
        !valid_utf8(bytes) ==> DiscoveryConfig::merged(
            model,
            (FieldModel { tag: 1, value: ValueModel::Bytes(bytes) }),
            budget,
        ) is None,
        DiscoveryConfig::merged(
            model,
            (FieldModel { tag: 1, value: ValueModel::Varint(number) }),
            budget,
        ) is None,
        DiscoveryConfig::merged(
            model,
            (FieldModel { tag: 2, value: ValueModel::Bytes(encode_utf8(text)) }),
            budget,
        ) == Some(
            DiscoveryConfigModel {
                registered_symbol_paths: model.registered_symbol_paths.push(text),
                ..model
            },
        ),
        !valid_utf8(bytes) ==> DiscoveryConfig::merged(
            model,
            (FieldModel { tag: 2, value: ValueModel::Bytes(bytes) }),
            budget,
        ) is None,
        DiscoveryConfig::merged(
            model,
            (FieldModel { tag: 2, value: ValueModel::Varint(number) }),
            budget,
        ) is None,
        other == 0 || other > 2 ==> DiscoveryConfig::merged(
            model,
            (FieldModel { tag: other, value }),
            budget,
        ) == Some(model),
        1 <= other <= 2 ==> DiscoveryConfig::merged(
            model,
            (FieldModel { tag: other, value: ValueModel::Other }),
            budget,
        ) is None,
{
    lemma_text(text);
}

/// A `DiscoveryConfig` is written with every member under its published number, and with nothing under
/// any other.
pub proof fn discovery_config_members_are_written_by_number(model: DiscoveryConfigModel, other: u32)
    ensures
        payloads(DiscoveryConfig::fields_model(model), 1) == (
            match model.registered_manifest {
                Some(text) => seq![ValueModel::Bytes(encode_utf8(text))],
                None => Seq::empty(),
            }
        ),
        payloads(DiscoveryConfig::fields_model(model), 2) == (
            Seq::new(
                model.registered_symbol_paths.len(),
                |i: int| ValueModel::Bytes(encode_utf8(model.registered_symbol_paths[i])),
            )
        ),
        other == 0 || other > 2 ==> payloads(
            DiscoveryConfig::fields_model(model),
            other,
        ) == Seq::<ValueModel>::empty(),
{
    let p0 = optional_text_piece(1, model.registered_manifest);
    lemma_payloads_uniform(p0, 1);
    let p1 = texts_piece(2, model.registered_symbol_paths);
    lemma_payloads_uniform(p1, 2);
    let s1 = p0 + p1;
    lemma_payloads_concat(p0, p1);
    assert(DiscoveryConfig::fields_model(model) == s1);
    assert(
        payloads(DiscoveryConfig::fields_model(model), 1) =~= (
            match model.registered_manifest {
                Some(text) => seq![ValueModel::Bytes(encode_utf8(text))],
                None => Seq::empty(),
            }
        )
    );
    assert(
        payloads(DiscoveryConfig::fields_model(model), 2) =~= (
            Seq::new(
                model.registered_symbol_paths.len(),
                |i: int| ValueModel::Bytes(encode_utf8(model.registered_symbol_paths[i])),
            )
        )
    );
    if other == 0 || other > 2 {
        assert(
            payloads(DiscoveryConfig::fields_model(model), other) =~= Seq::<ValueModel>::empty()
        );
    }
}

/// What a `DiscoveryConfig` shows is what its members are.
pub proof fn discovery_config_shows_its_members(message: DiscoveryConfig)
    ensures
        message.model().registered_manifest == match message.registered_manifest {
            Some(text) => Some(text@),
            None => None,
        },
        message.model().registered_symbol_paths.len() == message.registered_symbol_paths@.len(),
        forall|i: int| 0 <= i < message.registered_symbol_paths@.len() ==> message.model().registered_symbol_paths[
            i
        ] == (#[trigger] message.registered_symbol_paths@[i])@,
{
}

/// A field of a `RawFrame` sets the member that its published number stands for, and no other.
pub proof fn raw_frame_fields_are_known_by_number(
    model: RawFrameModel,
    number: u64,
    bytes: Seq<u8>,
    value: ValueModel,
    other: u32,
    budget: nat,
)
    ensures
        RawFrame::merged(
            model,
            (FieldModel { tag: 1, value: ValueModel::Varint(number) }),
            budget,
        ) == Some(RawFrameModel { module_index: (number % 0x1_0000_0000) as u32, ..model }),
        RawFrame::merged(
            model,
            (FieldModel { tag: 1, value: ValueModel::Bytes(bytes) }),
            budget,
        ) is None,
        RawFrame::merged(
            model,
            (FieldModel { tag: 2, value: ValueModel::Varint(number) }),
            budget,
        ) == Some(RawFrameModel { relative_address: number, ..model }),
        RawFrame::merged(
            model,
            (FieldModel { tag: 2, value: ValueModel::Bytes(bytes) }),
            budget,
        ) is None,
        other == 0 || other > 2 ==> RawFrame::merged(
            model,
            (FieldModel { tag: other, value }),
            budget,
        ) == Some(model),
        1 <= other <= 2 ==> RawFrame::merged(
            model,
            (FieldModel { tag: other, value: ValueModel::Other }),
            budget,
        ) is None,
{
}

/// A `RawFrame` is written with every member under its published number, and with nothing under
/// any other.
pub proof fn raw_frame_members_are_written_by_number(model: RawFrameModel, other: u32)
    ensures
        payloads(RawFrame::fields_model(model), 1) == (
            if model.module_index == 0 { Seq::empty() } else {
                seq![ValueModel::Varint(model.module_index as u64)]
            }
        ),
        payloads(RawFrame::fields_model(model), 2) == (
            if model.relative_address == 0 { Seq::empty() } else {
                seq![ValueModel::Varint(model.relative_address as u64)]
            }
        ),
        other == 0 || other > 2 ==> payloads(
            RawFrame::fields_model(model),
            other,
        ) == Seq::<ValueModel>::empty(),
{
    let p0 = number_piece(1, model.module_index as u64);
    lemma_payloads_uniform(p0, 1);
    let p1 = number_piece(2, model.relative_address);
    lemma_payloads_uniform(p1, 2);
    let s1 = p0 + p1;
    lemma_payloads_concat(p0, p1);
    assert(RawFrame::fields_model(model) == s1);
    assert(
        payloads(RawFrame::fields_model(model), 1) =~= (
            if model.module_index == 0 { Seq::empty() } else {
                seq![ValueModel::Varint(model.module_index as u64)]
            }
        )
    );
    assert(
        payloads(RawFrame::fields_model(model), 2) =~= (
            if model.relative_address == 0 { Seq::empty() } else {
                seq![ValueModel::Varint(model.relative_address as u64)]
            }
        )
    );
    if other == 0 || other > 2 {
        assert(payloads(RawFrame::fields_model(model), other) =~= Seq::<ValueModel>::empty());
    }
}

/// What a `RawFrame` shows is what its members are.
pub proof fn raw_frame_shows_its_members(message: RawFrame)
    ensures
        message.model().module_index == message.module_index,
        message.model().relative_address == message.relative_address,
{
}

/// A field of a `PyFrame` sets the member that its published number stands for, and no other.
pub proof fn py_frame_fields_are_known_by_number(
    model: PyFrameModel,
    text: Seq<char>,
    number: u64,
    bytes: Seq<u8>,
    value: ValueModel,
    other: u32,
    budget: nat,
)
    ensures
        PyFrame::merged(
            model,
            (FieldModel { tag: 1, value: ValueModel::Bytes(encode_utf8(text)) }),
            budget,
        ) == Some(PyFrameModel { file: text, ..model }),
        !valid_utf8(bytes) ==> PyFrame::merged(
            model,
            (FieldModel { tag: 1, value: ValueModel::Bytes(bytes) }),
            budget,
        ) is None,
        PyFrame::merged(
            model,
            (FieldModel { tag: 1, value: ValueModel::Varint(number) }),
            budget,
        ) is None,
        PyFrame::merged(
            model,
            (FieldModel { tag: 2, value: ValueModel::Varint(number) }),
            budget,
        ) == Some(PyFrameModel { line: (number % 0x1_0000_0000) as u32, ..model }),
        PyFrame::merged(
            model,
            (FieldModel { tag: 2, value: ValueModel::Bytes(bytes) }),
            budget,
        ) is None,
        PyFrame::merged(
            model,
            (FieldModel { tag: 3, value: ValueModel::Bytes(encode_utf8(text)) }),
            budget,
        ) == Some(PyFrameModel { func: text, ..model }),
        !valid_utf8(bytes) ==> PyFrame::merged(
            model,
            (FieldModel { tag: 3, value: ValueModel::Bytes(bytes) }),
            budget,
        ) is None,
        PyFrame::merged(
            model,
            (FieldModel { tag: 3, value: ValueModel::Varint(number) }),
            budget,
        ) is None,
        other == 0 || other > 3 ==> PyFrame::merged(
            model,
            (FieldModel { tag: other, value }),
            budget,
        ) == Some(model),
        1 <= other <= 3 ==> PyFrame::merged(
            model,
            (FieldModel { tag: other, value: ValueModel::Other }),
            budget,
        ) is None,
{
    lemma_text(text);
}

/// A `PyFrame` is written with every member under its published number, and with nothing under
/// any other.
pub proof fn py_frame_members_are_written_by_number(model: PyFrameModel, other: u32)
    ensures
        payloads(PyFrame::fields_model(model), 1) == (
            if model.file.len() == 0 { Seq::empty() } else {
                seq![ValueModel::Bytes(encode_utf8(model.file))]
            }
        ),
        payloads(PyFrame::fields_model(model), 2) == (
            if model.line == 0 { Seq::empty() } else { seq![ValueModel::Varint(model.line as u64)] }
        ),
        payloads(PyFrame::fields_model(model), 3) == (
            if model.func.len() == 0 { Seq::empty() } else {
                seq![ValueModel::Bytes(encode_utf8(model.func))]
            }
        ),
        other == 0 || other > 3 ==> payloads(
            PyFrame::fields_model(model),
            other,
        ) == Seq::<ValueModel>::empty(),
{
    let p0 = text_piece(1, model.file);
    lemma_payloads_uniform(p0, 1);
    let p1 = number_piece(2, model.line as u64);
    lemma_payloads_uniform(p1, 2);
    let p2 = text_piece(3, model.func);
    lemma_payloads_uniform(p2, 3);
    let s1 = p0 + p1;
    lemma_payloads_concat(p0, p1);
    let s2 = s1 + p2;
    lemma_payloads_concat(s1, p2);
    assert(PyFrame::fields_model(model) == s2);
    assert(
        payloads(PyFrame::fields_model(model), 1) =~= (
            if model.file.len() == 0 { Seq::empty() } else {
                seq![ValueModel::Bytes(encode_utf8(model.file))]
            }
        )
    );
    assert(
        payloads(PyFrame::fields_model(model), 2) =~= (
            if model.line == 0 { Seq::empty() } else { seq![ValueModel::Varint(model.line as u64)] }
        )
    );
    assert(
        payloads(PyFrame::fields_model(model), 3) =~= (
            if model.func.len() == 0 { Seq::empty() } else {
                seq![ValueModel::Bytes(encode_utf8(model.func))]
            }
        )
    );
    if other == 0 || other > 3 {
        assert(payloads(PyFrame::fields_model(model), other) =~= Seq::<ValueModel>::empty());
    }
}

/// What a `PyFrame` shows is what its members are.
pub proof fn py_frame_shows_its_members(message: PyFrame)
    ensures
        message.model().file == message.file@,
        message.model().line == message.line,
        message.model().func == message.func@,
{
}

/// A field of a `RawThread` sets the member that its published number stands for, and no other.
pub proof fn raw_thread_fields_are_known_by_number(
    model: RawThreadModel,
    number: u64,
    bytes: Seq<u8>,
    text: Seq<char>,
    value: ValueModel,
    other: u32,
    budget: nat,
)
    ensures
        RawThread::merged(
            model,
            (FieldModel { tag: 1, value: ValueModel::Varint(number) }),
            budget,
        ) == Some(RawThreadModel { os_tid: number, ..model }),
        RawThread::merged(
            model,
            (FieldModel { tag: 1, value: ValueModel::Bytes(bytes) }),
            budget,
        ) is None,
        RawThread::merged(
            model,
            (FieldModel { tag: 2, value: ValueModel::Bytes(encode_utf8(text)) }),
            budget,
        ) == Some(RawThreadModel { name: Some(text), ..model }),
        !valid_utf8(bytes) ==> RawThread::merged(
            model,
            (FieldModel { tag: 2, value: ValueModel::Bytes(bytes) }),
            budget,
        ) is None,
        RawThread::merged(
            model,
            (FieldModel { tag: 2, value: ValueModel::Varint(number) }),
            budget,
        ) is None,
        RawThread::merged(
            model,
            (FieldModel { tag: 3, value: ValueModel::Varint(number) }),
            budget,
        ) is None,
        budget > 0 && decoded::<RawFrame>(bytes, (budget - 1) as nat) is Some ==> RawThread::merged(
            model,
            (FieldModel { tag: 3, value: ValueModel::Bytes(bytes) }),
            budget,
        ) == Some(
            RawThreadModel {
                frames: model.frames.push(decoded::<RawFrame>(bytes, (budget - 1) as nat)->Some_0),
                ..model
            },
        ),
        budget > 0 && decoded::<RawFrame>(bytes, (budget - 1) as nat) is None ==> RawThread::merged(
            model,
            (FieldModel { tag: 3, value: ValueModel::Bytes(bytes) }),
            budget,
        ) is None,
        RawThread::merged(
            model,
            (FieldModel { tag: 4, value: ValueModel::Varint(number) }),
            budget,
        ) is None,
        budget > 0 && decoded::<PyFrame>(bytes, (budget - 1) as nat) is Some ==> RawThread::merged(
            model,
            (FieldModel { tag: 4, value: ValueModel::Bytes(bytes) }),
            budget,
        ) == Some(
            RawThreadModel {
                py_frames: model.py_frames.push(
                    decoded::<PyFrame>(bytes, (budget - 1) as nat)->Some_0,
                ),
                ..model
            },
        ),
        budget > 0 && decoded::<PyFrame>(bytes, (budget - 1) as nat) is None ==> RawThread::merged(
            model,
            (FieldModel { tag: 4, value: ValueModel::Bytes(bytes) }),
            budget,
        ) is None,
        other == 0 || other > 4 ==> RawThread::merged(
            model,
            (FieldModel { tag: other, value }),
            budget,
        ) == Some(model),
        1 <= other <= 4 ==> RawThread::merged(
            model,
            (FieldModel { tag: other, value: ValueModel::Other }),
            budget,
        ) is None,
{
    lemma_text(text);
}

/// A `RawThread` is written with every member under its published number, and with nothing under
/// any other.
pub proof fn raw_thread_members_are_written_by_number(model: RawThreadModel, other: u32)
    ensures
        payloads(RawThread::fields_model(model), 1) == (
            if model.os_tid == 0 { Seq::empty() } else {
                seq![ValueModel::Varint(model.os_tid as u64)]
            }
        ),
        payloads(RawThread::fields_model(model), 2) == (
            match model.name {
                Some(text) => seq![ValueModel::Bytes(encode_utf8(text))],
                None => Seq::empty(),
            }
        ),
        payloads(RawThread::fields_model(model), 3) == (
            Seq::new(
                model.frames.len(),
                |i: int| ValueModel::Bytes(encoded::<RawFrame>(model.frames[i])),
            )
        ),
        payloads(RawThread::fields_model(model), 4) == (
            Seq::new(
                model.py_frames.len(),
                |i: int| ValueModel::Bytes(encoded::<PyFrame>(model.py_frames[i])),
            )
        ),
        other == 0 || other > 4 ==> payloads(
            RawThread::fields_model(model),
            other,
        ) == Seq::<ValueModel>::empty(),
{
    let p0 = number_piece(1, model.os_tid);
    lemma_payloads_uniform(p0, 1);
    let p1 = optional_text_piece(2, model.name);
    lemma_payloads_uniform(p1, 2);
    let p2 = messages_piece::<RawFrame>(3, model.frames);
    lemma_payloads_uniform(p2, 3);
    let p3 = messages_piece::<PyFrame>(4, model.py_frames);
    lemma_payloads_uniform(p3, 4);
    let s1 = p0 + p1;
    lemma_payloads_concat(p0, p1);
    let s2 = s1 + p2;
    lemma_payloads_concat(s1, p2);
    let s3 = s2 + p3;
    lemma_payloads_concat(s2, p3);
    assert(RawThread::fields_model(model) == s3);
    assert(
        payloads(RawThread::fields_model(model), 1) =~= (
            if model.os_tid == 0 { Seq::empty() } else {
                seq![ValueModel::Varint(model.os_tid as u64)]
            }
        )
    );
    assert(
        payloads(RawThread::fields_model(model), 2) =~= (
            match model.name {
                Some(text) => seq![ValueModel::Bytes(encode_utf8(text))],
                None => Seq::empty(),
            }
        )
    );
    assert(
        payloads(RawThread::fields_model(model), 3) =~= (
            Seq::new(
                model.frames.len(),
                |i: int| ValueModel::Bytes(encoded::<RawFrame>(model.frames[i])),
            )
        )
    );
    assert(
        payloads(RawThread::fields_model(model), 4) =~= (
            Seq::new(
                model.py_frames.len(),
                |i: int| ValueModel::Bytes(encoded::<PyFrame>(model.py_frames[i])),
            )
        )
    );
    if other == 0 || other > 4 {
        assert(payloads(RawThread::fields_model(model), other) =~= Seq::<ValueModel>::empty());
    }
}

/// What a `RawThread` shows is what its members are.
pub proof fn raw_thread_shows_its_members(message: RawThread)
    ensures
        message.model().os_tid == message.os_tid,
        message.model().name == match message.name { Some(text) => Some(text@), None => None },
        message.model().frames.len() == message.frames@.len(),
        forall|i: int| 0 <= i < message.frames@.len() ==> message.model().frames[i] == (
            #[trigger] message.frames@[i]
        ).model(),
        message.model().py_frames.len() == message.py_frames@.len(),
        forall|i: int| 0 <= i < message.py_frames@.len() ==> message.model().py_frames[i] == (
            #[trigger] message.py_frames@[i]
        ).model(),
{
}

/// A field of a `RawCapture` sets the member that its published number stands for, and no other.
pub proof fn raw_capture_fields_are_known_by_number(
    model: RawCaptureModel,
    capture_format: CaptureFormat,
    bytes: Seq<u8>,
    number: u64,
    value: ValueModel,
    other: u32,
    budget: nat,
)
    ensures
        RawCapture::merged(
            model,
            (
                FieldModel {
                    tag: 1,
                    value: ValueModel::Varint(format_number(capture_format) as u64),
                }
            ),
            budget,
        ) == Some(RawCaptureModel { format: capture_format, ..model }),
        RawCapture::merged(
            model,
            (FieldModel { tag: 1, value: ValueModel::Varint(number) }),
            budget,
        ) == Some(RawCaptureModel { format: format_of((number % 0x1_0000_0000) as u32), ..model }),
        RawCapture::merged(
            model,
            (FieldModel { tag: 1, value: ValueModel::Bytes(bytes) }),
            budget,
        ) is None,
        RawCapture::merged(
            model,
            (FieldModel { tag: 2, value: ValueModel::Varint(number) }),
            budget,
        ) is None,
        budget > 0 && decoded_onto::<DiscoveryConfig>(model.discovery, bytes, (budget - 1) as nat) is Some ==> RawCapture::merged(
            model,
            (FieldModel { tag: 2, value: ValueModel::Bytes(bytes) }),
            budget,
        ) == Some(
            RawCaptureModel {
                discovery: decoded_onto::<DiscoveryConfig>(
                    model.discovery,
                    bytes,
                    (budget - 1) as nat,
                )->Some_0,
                ..model
            },
        ),
        RawCapture::merged(
            model,
            (FieldModel { tag: 3, value: ValueModel::Varint(number) }),
            budget,
        ) is None,
        budget > 0 && decoded::<ModuleRef>(bytes, (budget - 1) as nat) is Some ==> RawCapture::merged(
            model,
            (FieldModel { tag: 3, value: ValueModel::Bytes(bytes) }),
            budget,
        ) == Some(
            RawCaptureModel {
                modules: model.modules.push(
                    decoded::<ModuleRef>(bytes, (budget - 1) as nat)->Some_0,
                ),
                ..model
            },
        ),
        budget > 0 && decoded::<ModuleRef>(
            bytes,
            (budget - 1) as nat,
        ) is None ==> RawCapture::merged(
            model,
            (FieldModel { tag: 3, value: ValueModel::Bytes(bytes) }),
            budget,
        ) is None,
        RawCapture::merged(
            model,
            (FieldModel { tag: 4, value: ValueModel::Varint(number) }),
            budget,
        ) is None,
        budget > 0 && decoded::<RawThread>(bytes, (budget - 1) as nat) is Some ==> RawCapture::merged(
            model,
            (FieldModel { tag: 4, value: ValueModel::Bytes(bytes) }),
            budget,
        ) == Some(
            RawCaptureModel {
                threads: model.threads.push(
                    decoded::<RawThread>(bytes, (budget - 1) as nat)->Some_0,
                ),
                ..model
            },
        ),
        budget > 0 && decoded::<RawThread>(
            bytes,
            (budget - 1) as nat,
        ) is None ==> RawCapture::merged(
            model,
            (FieldModel { tag: 4, value: ValueModel::Bytes(bytes) }),
            budget,
        ) is None,
        other == 0 || other > 4 ==> RawCapture::merged(
            model,
            (FieldModel { tag: other, value }),
            budget,
        ) == Some(model),
        1 <= other <= 4 ==> RawCapture::merged(
            model,
            (FieldModel { tag: other, value: ValueModel::Other }),
            budget,
        ) is None,
{
}

/// A `RawCapture` is written with every member under its published number, and with nothing under
/// any other.
pub proof fn raw_capture_members_are_written_by_number(model: RawCaptureModel, other: u32)
    ensures
        payloads(RawCapture::fields_model(model), 1) == (
            if format_number(model.format) == 0 { Seq::empty() } else {
                seq![ValueModel::Varint(format_number(model.format) as u64)]
            }
        ),
        payloads(RawCapture::fields_model(model), 2) == (
            seq![ValueModel::Bytes(encoded::<DiscoveryConfig>(model.discovery))]
        ),
        payloads(RawCapture::fields_model(model), 3) == (
            Seq::new(
                model.modules.len(),
                |i: int| ValueModel::Bytes(encoded::<ModuleRef>(model.modules[i])),
            )
        ),
        payloads(RawCapture::fields_model(model), 4) == (
            Seq::new(
                model.threads.len(),
                |i: int| ValueModel::Bytes(encoded::<RawThread>(model.threads[i])),
            )
        ),
        other == 0 || other > 4 ==> payloads(
            RawCapture::fields_model(model),
            other,
        ) == Seq::<ValueModel>::empty(),
{
    let p0 = number_piece(1, format_number(model.format) as u64);
    lemma_payloads_uniform(p0, 1);
    let p1 = message_piece::<DiscoveryConfig>(2, model.discovery);
    lemma_payloads_uniform(p1, 2);
    let p2 = messages_piece::<ModuleRef>(3, model.modules);
    lemma_payloads_uniform(p2, 3);
    let p3 = messages_piece::<RawThread>(4, model.threads);
    lemma_payloads_uniform(p3, 4);
    let s1 = p0 + p1;
    lemma_payloads_concat(p0, p1);
    let s2 = s1 + p2;
    lemma_payloads_concat(s1, p2);
    let s3 = s2 + p3;
    lemma_payloads_concat(s2, p3);
    assert(RawCapture::fields_model(model) == s3);
    assert(
        payloads(RawCapture::fields_model(model), 1) =~= (
            if format_number(model.format) == 0 { Seq::empty() } else {
                seq![ValueModel::Varint(format_number(model.format) as u64)]
            }
        )
    );
    assert(
        payloads(RawCapture::fields_model(model), 2) =~= (
            seq![ValueModel::Bytes(encoded::<DiscoveryConfig>(model.discovery))]
        )
    );
    assert(
        payloads(RawCapture::fields_model(model), 3) =~= (
            Seq::new(
                model.modules.len(),
                |i: int| ValueModel::Bytes(encoded::<ModuleRef>(model.modules[i])),
            )
        )
    );
    assert(
        payloads(RawCapture::fields_model(model), 4) =~= (
            Seq::new(
                model.threads.len(),
                |i: int| ValueModel::Bytes(encoded::<RawThread>(model.threads[i])),
            )
        )
    );
    if other == 0 || other > 4 {
        assert(payloads(RawCapture::fields_model(model), other) =~= Seq::<ValueModel>::empty());
    }
}

/// What a `RawCapture` shows is what its members are.
pub proof fn raw_capture_shows_its_members(message: RawCapture)
    ensures
        message.model().format == message.format,
        message.model().discovery == message.discovery.model(),
        message.model().modules.len() == message.modules@.len(),
        forall|i: int| 0 <= i < message.modules@.len() ==> message.model().modules[i] == (
            #[trigger] message.modules@[i]
        ).model(),
        message.model().threads.len() == message.threads@.len(),
        forall|i: int| 0 <= i < message.threads@.len() ==> message.model().threads[i] == (
            #[trigger] message.threads@[i]
        ).model(),
{
}

/// A field of a `InlineFrame` sets the member that its published number stands for, and no other.
pub proof fn inline_frame_fields_are_known_by_number(
    model: InlineFrameModel,
    text: Seq<char>,
    number: u64,
    bytes: Seq<u8>,
    value: ValueModel,
    other: u32,
    budget: nat,
)
    ensures
        InlineFrame::merged(
            model,
            (FieldModel { tag: 1, value: ValueModel::Bytes(encode_utf8(text)) }),
            budget,
        ) == Some(InlineFrameModel { function: text, ..model }),
        !valid_utf8(bytes) ==> InlineFrame::merged(
            model,
            (FieldModel { tag: 1, value: ValueModel::Bytes(bytes) }),
            budget,
        ) is None,
        InlineFrame::merged(
            model,
            (FieldModel { tag: 1, value: ValueModel::Varint(number) }),
            budget,
        ) is None,
        InlineFrame::merged(
            model,
            (FieldModel { tag: 2, value: ValueModel::Bytes(encode_utf8(text)) }),
            budget,
        ) == Some(InlineFrameModel { file: Some(text), ..model }),
        !valid_utf8(bytes) ==> InlineFrame::merged(
            model,
            (FieldModel { tag: 2, value: ValueModel::Bytes(bytes) }),
            budget,
        ) is None,
        InlineFrame::merged(
            model,
            (FieldModel { tag: 2, value: ValueModel::Varint(number) }),
            budget,
        ) is None,
        InlineFrame::merged(
            model,
            (FieldModel { tag: 3, value: ValueModel::Varint(number) }),
            budget,
        ) == Some(InlineFrameModel { line: Some((number % 0x1_0000_0000) as u32), ..model }),
        InlineFrame::merged(
            model,
            (FieldModel { tag: 3, value: ValueModel::Bytes(bytes) }),
            budget,
        ) is None,
        other == 0 || other > 3 ==> InlineFrame::merged(
            model,
            (FieldModel { tag: other, value }),
            budget,
        ) == Some(model),
        1 <= other <= 3 ==> InlineFrame::merged(
            model,
            (FieldModel { tag: other, value: ValueModel::Other }),
            budget,
        ) is None,
{
    lemma_text(text);
}

/// A `InlineFrame` is written with every member under its published number, and with nothing under
/// any other.
pub proof fn inline_frame_members_are_written_by_number(model: InlineFrameModel, other: u32)
    ensures
        payloads(InlineFrame::fields_model(model), 1) == (
            if model.function.len() == 0 { Seq::empty() } else {
                seq![ValueModel::Bytes(encode_utf8(model.function))]
            }
        ),
        payloads(InlineFrame::fields_model(model), 2) == (
            match model.file {
                Some(text) => seq![ValueModel::Bytes(encode_utf8(text))],
                None => Seq::empty(),
            }
        ),
        payloads(InlineFrame::fields_model(model), 3) == (
            match model.line {
                Some(number) => seq![ValueModel::Varint(number as u64)],
                None => Seq::empty(),
            }
        ),
        other == 0 || other > 3 ==> payloads(
            InlineFrame::fields_model(model),
            other,
        ) == Seq::<ValueModel>::empty(),
{
    let p0 = text_piece(1, model.function);
    lemma_payloads_uniform(p0, 1);
    let p1 = optional_text_piece(2, model.file);
    lemma_payloads_uniform(p1, 2);
    let p2 = optional_number_piece(3, model.line);
    lemma_payloads_uniform(p2, 3);
    let s1 = p0 + p1;
    lemma_payloads_concat(p0, p1);
    let s2 = s1 + p2;
    lemma_payloads_concat(s1, p2);
    assert(InlineFrame::fields_model(model) == s2);
    assert(
        payloads(InlineFrame::fields_model(model), 1) =~= (
            if model.function.len() == 0 { Seq::empty() } else {
                seq![ValueModel::Bytes(encode_utf8(model.function))]
            }
        )
    );
    assert(
        payloads(InlineFrame::fields_model(model), 2) =~= (
            match model.file {
                Some(text) => seq![ValueModel::Bytes(encode_utf8(text))],
                None => Seq::empty(),
            }
        )
    );
    assert(
        payloads(InlineFrame::fields_model(model), 3) =~= (
            match model.line {
                Some(number) => seq![ValueModel::Varint(number as u64)],
                None => Seq::empty(),
            }
        )
    );
    if other == 0 || other > 3 {
        assert(payloads(InlineFrame::fields_model(model), other) =~= Seq::<ValueModel>::empty());
    }
}

/// What a `InlineFrame` shows is what its members are.
pub proof fn inline_frame_shows_its_members(message: InlineFrame)
    ensures
        message.model().function == message.function@,
        message.model().file == match message.file { Some(text) => Some(text@), None => None },
        message.model().line == message.line,
{
}

/// A field of a `SymFrame` sets the member that its published number stands for, and no other.
pub proof fn sym_frame_fields_are_known_by_number(
    model: SymFrameModel,
    text: Seq<char>,
    number: u64,
    bytes: Seq<u8>,
    frame_status: FrameStatus,
    value: ValueModel,
    other: u32,
    budget: nat,
)
    ensures
        SymFrame::merged(
            model,
            (FieldModel { tag: 1, value: ValueModel::Bytes(encode_utf8(text)) }),
            budget,
        ) == Some(SymFrameModel { module: text, ..model }),
        !valid_utf8(bytes) ==> SymFrame::merged(
            model,
            (FieldModel { tag: 1, value: ValueModel::Bytes(bytes) }),
            budget,
        ) is None,
        SymFrame::merged(
            model,
            (FieldModel { tag: 1, value: ValueModel::Varint(number) }),
            budget,
        ) is None,
        SymFrame::merged(
            model,
            (FieldModel { tag: 2, value: ValueModel::Varint(number) }),
            budget,
        ) == Some(SymFrameModel { relative_address: number, ..model }),
        SymFrame::merged(
            model,
            (FieldModel { tag: 2, value: ValueModel::Bytes(bytes) }),
            budget,
        ) is None,
        SymFrame::merged(
            model,
            (FieldModel { tag: 3, value: ValueModel::Bytes(encode_utf8(text)) }),
            budget,
        ) == Some(SymFrameModel { function: Some(text), ..model }),
        !valid_utf8(bytes) ==> SymFrame::merged(
            model,
            (FieldModel { tag: 3, value: ValueModel::Bytes(bytes) }),
            budget,
        ) is None,
        SymFrame::merged(
            model,
            (FieldModel { tag: 3, value: ValueModel::Varint(number) }),
            budget,
        ) is None,
        SymFrame::merged(
            model,
            (FieldModel { tag: 4, value: ValueModel::Bytes(encode_utf8(text)) }),
            budget,
        ) == Some(SymFrameModel { file: Some(text), ..model }),
        !valid_utf8(bytes) ==> SymFrame::merged(
            model,
            (FieldModel { tag: 4, value: ValueModel::Bytes(bytes) }),
            budget,
        ) is None,
        SymFrame::merged(
            model,
            (FieldModel { tag: 4, value: ValueModel::Varint(number) }),
            budget,
        ) is None,
        SymFrame::merged(
            model,
            (FieldModel { tag: 5, value: ValueModel::Varint(number) }),
            budget,
        ) == Some(SymFrameModel { line: Some((number % 0x1_0000_0000) as u32), ..model }),
        SymFrame::merged(
            model,
            (FieldModel { tag: 5, value: ValueModel::Bytes(bytes) }),
            budget,
        ) is None,
        SymFrame::merged(
            model,
            (FieldModel { tag: 6, value: ValueModel::Varint(number) }),
            budget,
        ) is None,
        budget > 0 && decoded::<InlineFrame>(bytes, (budget - 1) as nat) is Some ==> SymFrame::merged(
            model,
            (FieldModel { tag: 6, value: ValueModel::Bytes(bytes) }),
            budget,
        ) == Some(
            SymFrameModel {
                inline_frames: model.inline_frames.push(
                    decoded::<InlineFrame>(bytes, (budget - 1) as nat)->Some_0,
                ),
                ..model
            },
        ),
        budget > 0 && decoded::<InlineFrame>(
            bytes,
            (budget - 1) as nat,
        ) is None ==> SymFrame::merged(
            model,
            (FieldModel { tag: 6, value: ValueModel::Bytes(bytes) }),
            budget,
        ) is None,
        SymFrame::merged(
            model,
            (
                FieldModel {
                    tag: 7,
                    value: ValueModel::Varint(frame_status_number(frame_status) as u64),
                }
            ),
            budget,
        ) == Some(SymFrameModel { status: frame_status, ..model }),
        SymFrame::merged(
            model,
            (FieldModel { tag: 7, value: ValueModel::Varint(number) }),
            budget,
        ) == Some(
            SymFrameModel { status: frame_status_of((number % 0x1_0000_0000) as u32), ..model },
        ),
        SymFrame::merged(
            model,
            (FieldModel { tag: 7, value: ValueModel::Bytes(bytes) }),
            budget,
        ) is None,
        other == 0 || other > 7 ==> SymFrame::merged(
            model,
            (FieldModel { tag: other, value }),
            budget,
        ) == Some(model),
        1 <= other <= 7 ==> SymFrame::merged(
            model,
            (FieldModel { tag: other, value: ValueModel::Other }),
            budget,
        ) is None,
{
    lemma_text(text);
}

/// A `SymFrame` is written with every member under its published number, and with nothing under
/// any other.
pub proof fn sym_frame_members_are_written_by_number(model: SymFrameModel, other: u32)
    ensures
        payloads(SymFrame::fields_model(model), 1) == (
            if model.module.len() == 0 { Seq::empty() } else {
                seq![ValueModel::Bytes(encode_utf8(model.module))]
            }
        ),
        payloads(SymFrame::fields_model(model), 2) == (
            if model.relative_address == 0 { Seq::empty() } else {
                seq![ValueModel::Varint(model.relative_address as u64)]
            }
        ),
        payloads(SymFrame::fields_model(model), 3) == (
            match model.function {
                Some(text) => seq![ValueModel::Bytes(encode_utf8(text))],
                None => Seq::empty(),
            }
        ),
        payloads(SymFrame::fields_model(model), 4) == (
            match model.file {
                Some(text) => seq![ValueModel::Bytes(encode_utf8(text))],
                None => Seq::empty(),
            }
        ),
        payloads(SymFrame::fields_model(model), 5) == (
            match model.line {
                Some(number) => seq![ValueModel::Varint(number as u64)],
                None => Seq::empty(),
            }
        ),
        payloads(SymFrame::fields_model(model), 6) == (
            Seq::new(
                model.inline_frames.len(),
                |i: int| ValueModel::Bytes(encoded::<InlineFrame>(model.inline_frames[i])),
            )
        ),
        payloads(SymFrame::fields_model(model), 7) == (
            if frame_status_number(model.status) == 0 { Seq::empty() } else {
                seq![ValueModel::Varint(frame_status_number(model.status) as u64)]
            }
        ),
        other == 0 || other > 7 ==> payloads(
            SymFrame::fields_model(model),
            other,
        ) == Seq::<ValueModel>::empty(),
{
    let p0 = text_piece(1, model.module);
    lemma_payloads_uniform(p0, 1);
    let p1 = number_piece(2, model.relative_address);
    lemma_payloads_uniform(p1, 2);
    let p2 = optional_text_piece(3, model.function);
    lemma_payloads_uniform(p2, 3);
    let p3 = optional_text_piece(4, model.file);
    lemma_payloads_uniform(p3, 4);
    let p4 = optional_number_piece(5, model.line);
    lemma_payloads_uniform(p4, 5);
    let p5 = messages_piece::<InlineFrame>(6, model.inline_frames);
    lemma_payloads_uniform(p5, 6);
    let p6 = number_piece(7, frame_status_number(model.status) as u64);
    lemma_payloads_uniform(p6, 7);
    let s1 = p0 + p1;
    lemma_payloads_concat(p0, p1);
    let s2 = s1 + p2;
    lemma_payloads_concat(s1, p2);
    let s3 = s2 + p3;
    lemma_payloads_concat(s2, p3);
    let s4 = s3 + p4;
    lemma_payloads_concat(s3, p4);
    let s5 = s4 + p5;
    lemma_payloads_concat(s4, p5);
    let s6 = s5 + p6;
    lemma_payloads_concat(s5, p6);
    assert(SymFrame::fields_model(model) == s6);
    assert(
        payloads(SymFrame::fields_model(model), 1) =~= (
            if model.module.len() == 0 { Seq::empty() } else {
                seq![ValueModel::Bytes(encode_utf8(model.module))]
            }
        )
    );
    assert(
        payloads(SymFrame::fields_model(model), 2) =~= (
            if model.relative_address == 0 { Seq::empty() } else {
                seq![ValueModel::Varint(model.relative_address as u64)]
            }
        )
    );
    assert(
        payloads(SymFrame::fields_model(model), 3) =~= (
            match model.function {
                Some(text) => seq![ValueModel::Bytes(encode_utf8(text))],
                None => Seq::empty(),
            }
        )
    );
    assert(
        payloads(SymFrame::fields_model(model), 4) =~= (
            match model.file {
                Some(text) => seq![ValueModel::Bytes(encode_utf8(text))],
                None => Seq::empty(),
            }
        )
    );
    assert(
        payloads(SymFrame::fields_model(model), 5) =~= (
            match model.line {
                Some(number) => seq![ValueModel::Varint(number as u64)],
                None => Seq::empty(),
            }
        )
    );
    assert(
        payloads(SymFrame::fields_model(model), 6) =~= (
            Seq::new(
                model.inline_frames.len(),
                |i: int| ValueModel::Bytes(encoded::<InlineFrame>(model.inline_frames[i])),
            )
        )
    );
    assert(
        payloads(SymFrame::fields_model(model), 7) =~= (
            if frame_status_number(model.status) == 0 { Seq::empty() } else {
                seq![ValueModel::Varint(frame_status_number(model.status) as u64)]
            }
        )
    );
    if other == 0 || other > 7 {
        assert(payloads(SymFrame::fields_model(model), other) =~= Seq::<ValueModel>::empty());
    }
}

/// What a `SymFrame` shows is what its members are.
pub proof fn sym_frame_shows_its_members(message: SymFrame)
    ensures
        message.model().module == message.module@,
        message.model().relative_address == message.relative_address,
        message.model().function == match message.function {
            Some(text) => Some(text@),
            None => None,
        },
        message.model().file == match message.file { Some(text) => Some(text@), None => None },
        message.model().line == message.line,
        message.model().inline_frames.len() == message.inline_frames@.len(),
        forall|i: int| 0 <= i < message.inline_frames@.len() ==> message.model().inline_frames[
            i
        ] == (#[trigger] message.inline_frames@[i]).model(),
        message.model().status == message.status,
{
}

/// A field of a `SymThread` sets the member that its published number stands for, and no other.
pub proof fn sym_thread_fields_are_known_by_number(
    model: SymThreadModel,
    number: u64,
    bytes: Seq<u8>,
    text: Seq<char>,
    value: ValueModel,
    other: u32,
    budget: nat,
)
    ensures
        SymThread::merged(
            model,
            (FieldModel { tag: 1, value: ValueModel::Varint(number) }),
            budget,
        ) == Some(SymThreadModel { os_tid: number, ..model }),
        SymThread::merged(
            model,
            (FieldModel { tag: 1, value: ValueModel::Bytes(bytes) }),
            budget,
        ) is None,
        SymThread::merged(
            model,
            (FieldModel { tag: 2, value: ValueModel::Bytes(encode_utf8(text)) }),
            budget,
        ) == Some(SymThreadModel { name: Some(text), ..model }),
        !valid_utf8(bytes) ==> SymThread::merged(
            model,
            (FieldModel { tag: 2, value: ValueModel::Bytes(bytes) }),
            budget,
        ) is None,
        SymThread::merged(
            model,
            (FieldModel { tag: 2, value: ValueModel::Varint(number) }),
            budget,
        ) is None,
        SymThread::merged(
            model,
            (FieldModel { tag: 3, value: ValueModel::Varint(number) }),
            budget,
        ) is None,
        budget > 0 && decoded::<SymFrame>(bytes, (budget - 1) as nat) is Some ==> SymThread::merged(
            model,
            (FieldModel { tag: 3, value: ValueModel::Bytes(bytes) }),
            budget,
        ) == Some(
            SymThreadModel {
                frames: model.frames.push(decoded::<SymFrame>(bytes, (budget - 1) as nat)->Some_0),
                ..model
            },
        ),
        budget > 0 && decoded::<SymFrame>(bytes, (budget - 1) as nat) is None ==> SymThread::merged(
            model,
            (FieldModel { tag: 3, value: ValueModel::Bytes(bytes) }),
            budget,
        ) is None,
        SymThread::merged(
            model,
            (FieldModel { tag: 4, value: ValueModel::Varint(number) }),
            budget,
        ) is None,
        budget > 0 && decoded::<PyFrame>(bytes, (budget - 1) as nat) is Some ==> SymThread::merged(
            model,
            (FieldModel { tag: 4, value: ValueModel::Bytes(bytes) }),
            budget,
        ) == Some(
            SymThreadModel {
                py_frames: model.py_frames.push(
                    decoded::<PyFrame>(bytes, (budget - 1) as nat)->Some_0,
                ),
                ..model
            },
        ),
        budget > 0 && decoded::<PyFrame>(bytes, (budget - 1) as nat) is None ==> SymThread::merged(
            model,
            (FieldModel { tag: 4, value: ValueModel::Bytes(bytes) }),
            budget,
        ) is None,
        other == 0 || other > 4 ==> SymThread::merged(
            model,
            (FieldModel { tag: other, value }),
            budget,
        ) == Some(model),
        1 <= other <= 4 ==> SymThread::merged(
            model,
            (FieldModel { tag: other, value: ValueModel::Other }),
            budget,
        ) is None,
{
    lemma_text(text);
}

/// A `SymThread` is written with every member under its published number, and with nothing under
/// any other.
pub proof fn sym_thread_members_are_written_by_number(model: SymThreadModel, other: u32)
    ensures
        payloads(SymThread::fields_model(model), 1) == (
            if model.os_tid == 0 { Seq::empty() } else {
                seq![ValueModel::Varint(model.os_tid as u64)]
            }
        ),
        payloads(SymThread::fields_model(model), 2) == (
            match model.name {
                Some(text) => seq![ValueModel::Bytes(encode_utf8(text))],
                None => Seq::empty(),
            }
        ),
        payloads(SymThread::fields_model(model), 3) == (
            Seq::new(
                model.frames.len(),
                |i: int| ValueModel::Bytes(encoded::<SymFrame>(model.frames[i])),
            )
        ),
        payloads(SymThread::fields_model(model), 4) == (
            Seq::new(
                model.py_frames.len(),
                |i: int| ValueModel::Bytes(encoded::<PyFrame>(model.py_frames[i])),
            )
        ),
        other == 0 || other > 4 ==> payloads(
            SymThread::fields_model(model),
            other,
        ) == Seq::<ValueModel>::empty(),
{
    let p0 = number_piece(1, model.os_tid);
    lemma_payloads_uniform(p0, 1);
    let p1 = optional_text_piece(2, model.name);
    lemma_payloads_uniform(p1, 2);
    let p2 = messages_piece::<SymFrame>(3, model.frames);
    lemma_payloads_uniform(p2, 3);
    let p3 = messages_piece::<PyFrame>(4, model.py_frames);
    lemma_payloads_uniform(p3, 4);
    let s1 = p0 + p1;
    lemma_payloads_concat(p0, p1);
    let s2 = s1 + p2;
    lemma_payloads_concat(s1, p2);
    let s3 = s2 + p3;
    lemma_payloads_concat(s2, p3);
    assert(SymThread::fields_model(model) == s3);
    assert(
        payloads(SymThread::fields_model(model), 1) =~= (
            if model.os_tid == 0 { Seq::empty() } else {
                seq![ValueModel::Varint(model.os_tid as u64)]
            }
        )
    );
    assert(
        payloads(SymThread::fields_model(model), 2) =~= (
            match model.name {
                Some(text) => seq![ValueModel::Bytes(encode_utf8(text))],
                None => Seq::empty(),
            }
        )
    );
    assert(
        payloads(SymThread::fields_model(model), 3) =~= (
            Seq::new(
                model.frames.len(),
                |i: int| ValueModel::Bytes(encoded::<SymFrame>(model.frames[i])),
            )
        )
    );
    assert(
        payloads(SymThread::fields_model(model), 4) =~= (
            Seq::new(
                model.py_frames.len(),
                |i: int| ValueModel::Bytes(encoded::<PyFrame>(model.py_frames[i])),
            )
        )
    );
    if other == 0 || other > 4 {
        assert(payloads(SymThread::fields_model(model), other) =~= Seq::<ValueModel>::empty());
    }
}

/// What a `SymThread` shows is what its members are.
pub proof fn sym_thread_shows_its_members(message: SymThread)
    ensures
        message.model().os_tid == message.os_tid,
        message.model().name == match message.name { Some(text) => Some(text@), None => None },
        message.model().frames.len() == message.frames@.len(),
        forall|i: int| 0 <= i < message.frames@.len() ==> message.model().frames[i] == (
            #[trigger] message.frames@[i]
        ).model(),
        message.model().py_frames.len() == message.py_frames@.len(),
        forall|i: int| 0 <= i < message.py_frames@.len() ==> message.model().py_frames[i] == (
            #[trigger] message.py_frames@[i]
        ).model(),
{
}

/// A field of a `ModuleReport` sets the member that its published number stands for, and no other.
pub proof fn module_report_fields_are_known_by_number(
    model: ModuleReportModel,
    text: Seq<char>,
    number: u64,
    module_symbol_status: ModuleSymbolStatus,
    bytes: Seq<u8>,
    source: DiscoverySource,
    value: ValueModel,
    other: u32,
    budget: nat,
)
    ensures
        ModuleReport::merged(
            model,
            (FieldModel { tag: 1, value: ValueModel::Bytes(encode_utf8(text)) }),
            budget,
        ) == Some(ModuleReportModel { name: text, ..model }),
        !valid_utf8(bytes) ==> ModuleReport::merged(
            model,
            (FieldModel { tag: 1, value: ValueModel::Bytes(bytes) }),
            budget,
        ) is None,
        ModuleReport::merged(
            model,
            (FieldModel { tag: 1, value: ValueModel::Varint(number) }),
            budget,
        ) is None,
        ModuleReport::merged(
            model,
            (
                FieldModel {
                    tag: 2,
                    value: ValueModel::Varint(module_status_number(module_symbol_status) as u64),
                }
            ),
            budget,
        ) == Some(ModuleReportModel { status: module_symbol_status, ..model }),
        ModuleReport::merged(
            model,
            (FieldModel { tag: 2, value: ValueModel::Varint(number) }),
            budget,
        ) == Some(
            ModuleReportModel {
                status: module_status_of((number % 0x1_0000_0000) as u32),
                ..model
            },
        ),
        ModuleReport::merged(
            model,
            (FieldModel { tag: 2, value: ValueModel::Bytes(bytes) }),
            budget,
        ) is None,
        ModuleReport::merged(
            model,
            (FieldModel { tag: 3, value: ValueModel::Bytes(encode_utf8(text)) }),
            budget,
        ) == Some(ModuleReportModel { symbol_file: Some(text), ..model }),
        !valid_utf8(bytes) ==> ModuleReport::merged(
            model,
            (FieldModel { tag: 3, value: ValueModel::Bytes(bytes) }),
            budget,
        ) is None,
        ModuleReport::merged(
            model,
            (FieldModel { tag: 3, value: ValueModel::Varint(number) }),
            budget,
        ) is None,
        ModuleReport::merged(
            model,
            (FieldModel { tag: 4, value: ValueModel::Varint(source_number(source) as u64) }),
            budget,
        ) == Some(ModuleReportModel { symbol_source: Some(source), ..model }),
        ModuleReport::merged(
            model,
            (FieldModel { tag: 4, value: ValueModel::Varint(number) }),
            budget,
        ) == Some(
            ModuleReportModel {
                symbol_source: source_of((number % 0x1_0000_0000) as u32),
                ..model
            },
        ),
        ModuleReport::merged(
            model,
            (FieldModel { tag: 4, value: ValueModel::Bytes(bytes) }),
            budget,
        ) is None,
        number <= usize::MAX ==> ModuleReport::merged(
            model,
            (FieldModel { tag: 5, value: ValueModel::Varint(number) }),
            budget,
        ) == Some(ModuleReportModel { rejected_candidates: number as usize, ..model }),
        number > usize::MAX ==> ModuleReport::merged(
            model,
            (FieldModel { tag: 5, value: ValueModel::Varint(number) }),
            budget,
        ) == Some(ModuleReportModel { rejected_candidates: usize::MAX, ..model }),
        ModuleReport::merged(
            model,
            (FieldModel { tag: 5, value: ValueModel::Bytes(bytes) }),
            budget,
        ) is None,
        other == 0 || other > 5 ==> ModuleReport::merged(
            model,
            (FieldModel { tag: other, value }),
            budget,
        ) == Some(model),
        1 <= other <= 5 ==> ModuleReport::merged(
            model,
            (FieldModel { tag: other, value: ValueModel::Other }),
            budget,
        ) is None,
{
    lemma_text(text);
}

/// A `ModuleReport` is written with every member under its published number, and with nothing under
/// any other.
pub proof fn module_report_members_are_written_by_number(model: ModuleReportModel, other: u32)
    ensures
        payloads(ModuleReport::fields_model(model), 1) == (
            if model.name.len() == 0 { Seq::empty() } else {
                seq![ValueModel::Bytes(encode_utf8(model.name))]
            }
        ),
        payloads(ModuleReport::fields_model(model), 2) == (
            if module_status_number(model.status) == 0 { Seq::empty() } else {
                seq![ValueModel::Varint(module_status_number(model.status) as u64)]
            }
        ),
        payloads(ModuleReport::fields_model(model), 3) == (
            match model.symbol_file {
                Some(text) => seq![ValueModel::Bytes(encode_utf8(text))],
                None => Seq::empty(),
            }
        ),
        payloads(ModuleReport::fields_model(model), 4) == (
            match model.symbol_source {
                Some(source) => seq![ValueModel::Varint(source_number(source) as u64)],
                None => Seq::empty(),
            }
        ),
        payloads(ModuleReport::fields_model(model), 5) == (
            if model.rejected_candidates == 0 { Seq::empty() } else {
                seq![ValueModel::Varint(model.rejected_candidates as u64)]
            }
        ),
        other == 0 || other > 5 ==> payloads(
            ModuleReport::fields_model(model),
            other,
        ) == Seq::<ValueModel>::empty(),
{
    let p0 = text_piece(1, model.name);
    lemma_payloads_uniform(p0, 1);
    let p1 = number_piece(2, module_status_number(model.status) as u64);
    lemma_payloads_uniform(p1, 2);
    let p2 = optional_text_piece(3, model.symbol_file);
    lemma_payloads_uniform(p2, 3);
    let p3 = optional_number_piece(4, optional_source_number(model.symbol_source));
    lemma_payloads_uniform(p3, 4);
    let p4 = number_piece(5, model.rejected_candidates as u64);
    lemma_payloads_uniform(p4, 5);
    let s1 = p0 + p1;
    lemma_payloads_concat(p0, p1);
    let s2 = s1 + p2;
    lemma_payloads_concat(s1, p2);
    let s3 = s2 + p3;
    lemma_payloads_concat(s2, p3);
    let s4 = s3 + p4;
    lemma_payloads_concat(s3, p4);
    assert(ModuleReport::fields_model(model) == s4);
    assert(
        payloads(ModuleReport::fields_model(model), 1) =~= (
            if model.name.len() == 0 { Seq::empty() } else {
                seq![ValueModel::Bytes(encode_utf8(model.name))]
            }
        )
    );
    assert(
        payloads(ModuleReport::fields_model(model), 2) =~= (
            if module_status_number(model.status) == 0 { Seq::empty() } else {
                seq![ValueModel::Varint(module_status_number(model.status) as u64)]
            }
        )
    );
    assert(
        payloads(ModuleReport::fields_model(model), 3) =~= (
            match model.symbol_file {
                Some(text) => seq![ValueModel::Bytes(encode_utf8(text))],
                None => Seq::empty(),
            }
        )
    );
    assert(
        payloads(ModuleReport::fields_model(model), 4) =~= (
            match model.symbol_source {
                Some(source) => seq![ValueModel::Varint(source_number(source) as u64)],
                None => Seq::empty(),
            }
        )
    );
    assert(
        payloads(ModuleReport::fields_model(model), 5) =~= (
            if model.rejected_candidates == 0 { Seq::empty() } else {
                seq![ValueModel::Varint(model.rejected_candidates as u64)]
            }
        )
    );
    if other == 0 || other > 5 {
        assert(payloads(ModuleReport::fields_model(model), other) =~= Seq::<ValueModel>::empty());
    }
}

/// What a `ModuleReport` shows is what its members are.
pub proof fn module_report_shows_its_members(message: ModuleReport)
    ensures
        message.model().name == message.name@,
        message.model().status == message.status,
        message.model().symbol_file == match message.symbol_file {
            Some(text) => Some(text@),
            None => None,
        },
        message.model().symbol_source == message.symbol_source,
        message.model().rejected_candidates == message.rejected_candidates,
{
}

/// A field of a `SymbolReport` sets the member that its published number stands for, and no other.
pub proof fn symbol_report_fields_are_known_by_number(
    model: SymbolReportModel,
    bytes: Seq<u8>,
    number: u64,
    value: ValueModel,
    other: u32,
    budget: nat,
)
    ensures
        SymbolReport::merged(
            model,
            (FieldModel { tag: 1, value: ValueModel::Varint(number) }),
            budget,
        ) is None,
        budget > 0 && decoded::<SymThread>(bytes, (budget - 1) as nat) is Some ==> SymbolReport::merged(
            model,
            (FieldModel { tag: 1, value: ValueModel::Bytes(bytes) }),
            budget,
        ) == Some(
            SymbolReportModel {
                threads: model.threads.push(
                    decoded::<SymThread>(bytes, (budget - 1) as nat)->Some_0,
                ),
                ..model
            },
        ),
        budget > 0 && decoded::<SymThread>(
            bytes,
            (budget - 1) as nat,
        ) is None ==> SymbolReport::merged(
            model,
            (FieldModel { tag: 1, value: ValueModel::Bytes(bytes) }),
            budget,
        ) is None,
        SymbolReport::merged(
            model,
            (FieldModel { tag: 2, value: ValueModel::Varint(number) }),
            budget,
        ) is None,
        budget > 0 && decoded::<ModuleReport>(bytes, (budget - 1) as nat) is Some ==> SymbolReport::merged(
            model,
            (FieldModel { tag: 2, value: ValueModel::Bytes(bytes) }),
            budget,
        ) == Some(
            SymbolReportModel {
                modules: model.modules.push(
                    decoded::<ModuleReport>(bytes, (budget - 1) as nat)->Some_0,
                ),
                ..model
            },
        ),
        budget > 0 && decoded::<ModuleReport>(
            bytes,
            (budget - 1) as nat,
        ) is None ==> SymbolReport::merged(
            model,
            (FieldModel { tag: 2, value: ValueModel::Bytes(bytes) }),
            budget,
        ) is None,
        other == 0 || other > 2 ==> SymbolReport::merged(
            model,
            (FieldModel { tag: other, value }),
            budget,
        ) == Some(model),
        1 <= other <= 2 ==> SymbolReport::merged(
            model,
            (FieldModel { tag: other, value: ValueModel::Other }),
            budget,
        ) is None,
{
}

/// A `SymbolReport` is written with every member under its published number, and with nothing under
/// any other.
pub proof fn symbol_report_members_are_written_by_number(model: SymbolReportModel, other: u32)
    ensures
        payloads(SymbolReport::fields_model(model), 1) == (
            Seq::new(
                model.threads.len(),
                |i: int| ValueModel::Bytes(encoded::<SymThread>(model.threads[i])),
            )
        ),
        payloads(SymbolReport::fields_model(model), 2) == (
            Seq::new(
                model.modules.len(),
                |i: int| ValueModel::Bytes(encoded::<ModuleReport>(model.modules[i])),
            )
        ),
        other == 0 || other > 2 ==> payloads(
            SymbolReport::fields_model(model),
            other,
        ) == Seq::<ValueModel>::empty(),
{
    let p0 = messages_piece::<SymThread>(1, model.threads);
    lemma_payloads_uniform(p0, 1);
    let p1 = messages_piece::<ModuleReport>(2, model.modules);
    lemma_payloads_uniform(p1, 2);
    let s1 = p0 + p1;
    lemma_payloads_concat(p0, p1);
    assert(SymbolReport::fields_model(model) == s1);
    assert(
        payloads(SymbolReport::fields_model(model), 1) =~= (
            Seq::new(
                model.threads.len(),
                |i: int| ValueModel::Bytes(encoded::<SymThread>(model.threads[i])),
            )
        )
    );
    assert(
        payloads(SymbolReport::fields_model(model), 2) =~= (
            Seq::new(
                model.modules.len(),
                |i: int| ValueModel::Bytes(encoded::<ModuleReport>(model.modules[i])),
            )
        )
    );
    if other == 0 || other > 2 {
        assert(payloads(SymbolReport::fields_model(model), other) =~= Seq::<ValueModel>::empty());
    }
}

/// What a `SymbolReport` shows is what its members are.
pub proof fn symbol_report_shows_its_members(message: SymbolReport)
    ensures
        message.model().threads.len() == message.threads@.len(),
        forall|i: int| 0 <= i < message.threads@.len() ==> message.model().threads[i] == (
            #[trigger] message.threads@[i]
        ).model(),
        message.model().modules.len() == message.modules@.len(),
        forall|i: int| 0 <= i < message.modules@.len() ==> message.model().modules[i] == (
            #[trigger] message.modules@[i]
        ).model(),
{
}

/// The published numbers of the enumerations, each of which is read back as it was written.
pub proof fn enumerations_have_published_numbers(
    format: CaptureFormat,
    frame: FrameStatus,
    module: ModuleSymbolStatus,
    source: DiscoverySource,
)
    ensures
        format_number(CaptureFormat::CooperativeFrames) == 0,
        format_number(CaptureFormat::Minidump) == 1,
        frame_status_number(FrameStatus::RawOnly) == 0,
        frame_status_number(FrameStatus::Resolved) == 1,
        frame_status_number(FrameStatus::ModuleUnknown) == 2,
        module_status_number(ModuleSymbolStatus::NotFound) == 0,
        module_status_number(ModuleSymbolStatus::Resolved) == 1,
        module_status_number(ModuleSymbolStatus::Mismatched) == 2,
        module_status_number(ModuleSymbolStatus::NoDebugDirectory) == 3,
        module_status_number(ModuleSymbolStatus::Unsupported) == 4,
        source_number(DiscoverySource::Embedded) == 0,
        source_number(DiscoverySource::AdjacentManifest) == 1,
        source_number(DiscoverySource::Registration) == 2,
        source_number(DiscoverySource::AdjacentNative) == 3,
        source_number(DiscoverySource::BuildIdCache) == 4,
        source_number(DiscoverySource::ConfiguredStore) == 5,
        source_number(DiscoverySource::ConfiguredServer) == 6,
        format_of(format_number(format)) == format,
        frame_status_of(frame_status_number(frame)) == frame,
        module_status_of(module_status_number(module)) == module,
        source_of(source_number(source)) == Some(source),
{
}

/// A number that was never published is read as what claims least, and names no source.
pub proof fn unpublished_numbers_claim_nothing(number: u32)
    ensures
        number > 1 ==> format_of(number) == CaptureFormat::CooperativeFrames,
        number > 2 ==> frame_status_of(number) == FrameStatus::RawOnly,
        number > 4 ==> module_status_of(number) == ModuleSymbolStatus::NotFound,
        number > 6 ==> source_of(number) is None,
{
}

/// Messages start out empty, and with what claims least.
pub proof fn blank_messages_claim_nothing()
    ensures
        ModuleReport::blank_model().status == ModuleSymbolStatus::NotFound,
        ModuleReport::blank_model().symbol_file is None,
        ModuleReport::blank_model().symbol_source is None,
        ModuleReport::blank_model().rejected_candidates == 0,
        SymFrame::blank_model().status == FrameStatus::RawOnly,
        SymFrame::blank_model().function is None,
        SymFrame::blank_model().file is None,
        SymFrame::blank_model().line is None,
        SymFrame::blank_model().inline_frames.len() == 0,
        SymbolReport::blank_model().threads.len() == 0,
        SymbolReport::blank_model().modules.len() == 0,
        RawCapture::blank_model().format == CaptureFormat::CooperativeFrames,
        RawCapture::blank_model().modules.len() == 0,
        RawCapture::blank_model().threads.len() == 0,
        RawThread::blank_model().frames.len() == 0,
        RawThread::blank_model().py_frames.len() == 0,
        RawThread::blank_model().name is None,
        ModuleRef::blank_model().debug_id is None,
        ModuleRef::blank_model().path_hint is None,
{
}

/// A field of a `ModuleRef` that is written in neither way is told by its name.
pub proof fn module_ref_faults_name_their_field(wire: u8, bytes: Seq<u8>, budget: nat)
    requires
        wire != 0,
        wire != 2,
    ensures
        ModuleRef::field_fault(1, wire, bytes, budget) == misread(wire, 2, "ModuleRef.name"@),
        ModuleRef::field_fault(2, wire, bytes, budget) == misread(wire, 0, "ModuleRef.base_avma"@),
        ModuleRef::field_fault(3, wire, bytes, budget) == misread(wire, 2, "ModuleRef.code_id"@),
        ModuleRef::field_fault(4, wire, bytes, budget) == misread(wire, 2, "ModuleRef.debug_id"@),
        ModuleRef::field_fault(5, wire, bytes, budget) == misread(wire, 2, "ModuleRef.debug_file"@),
        ModuleRef::field_fault(6, wire, bytes, budget) == misread(wire, 2, "ModuleRef.path_hint"@),
        ModuleRef::field_fault(7, wire, bytes, budget) == misread(wire, 2, "ModuleRef.embedded_symbol_path"@),
{
}

/// A field of a `DiscoveryConfig` that is written in neither way is told by its name.
pub proof fn discovery_config_faults_name_their_field(wire: u8, bytes: Seq<u8>, budget: nat)
    requires
        wire != 0,
        wire != 2,
    ensures
        DiscoveryConfig::field_fault(1, wire, bytes, budget) == misread(wire, 2, "DiscoveryConfig.registered_manifest"@),
        DiscoveryConfig::field_fault(2, wire, bytes, budget) == misread(wire, 2, "DiscoveryConfig.registered_symbol_paths"@),
{
}

/// A field of a `RawFrame` that is written in neither way is told by its name.
pub proof fn raw_frame_faults_name_their_field(wire: u8, bytes: Seq<u8>, budget: nat)
    requires
        wire != 0,
        wire != 2,
    ensures
        RawFrame::field_fault(1, wire, bytes, budget) == misread(wire, 0, "RawFrame.module_index"@),
        RawFrame::field_fault(2, wire, bytes, budget) == misread(wire, 0, "RawFrame.relative_address"@),
{
}

/// A field of a `PyFrame` that is written in neither way is told by its name.
pub proof fn py_frame_faults_name_their_field(wire: u8, bytes: Seq<u8>, budget: nat)
    requires
        wire != 0,
        wire != 2,
    ensures
        PyFrame::field_fault(1, wire, bytes, budget) == misread(wire, 2, "PyFrame.file"@),
        PyFrame::field_fault(2, wire, bytes, budget) == misread(wire, 0, "PyFrame.line"@),
        PyFrame::field_fault(3, wire, bytes, budget) == misread(wire, 2, "PyFrame.func"@),
{
}

/// A field of a `RawThread` that is written in neither way is told by its name.
pub proof fn raw_thread_faults_name_their_field(wire: u8, bytes: Seq<u8>, budget: nat)
    requires
        wire != 0,
        wire != 2,
    ensures
        RawThread::field_fault(1, wire, bytes, budget) == misread(wire, 0, "RawThread.os_tid"@),
        RawThread::field_fault(2, wire, bytes, budget) == misread(wire, 2, "RawThread.name"@),
        RawThread::field_fault(3, wire, bytes, budget) == misread(wire, 2, "RawThread.frames"@),
        RawThread::field_fault(4, wire, bytes, budget) == misread(wire, 2, "RawThread.py_frames"@),
{
}

/// A field of a `RawCapture` that is written in neither way is told by its name.
pub proof fn raw_capture_faults_name_their_field(wire: u8, bytes: Seq<u8>, budget: nat)
    requires
        wire != 0,
        wire != 2,
    ensures
        RawCapture::field_fault(1, wire, bytes, budget) == misread(wire, 0, "RawCapture.format"@),
        RawCapture::field_fault(2, wire, bytes, budget) == misread(wire, 2, "RawCapture.discovery"@),
        RawCapture::field_fault(3, wire, bytes, budget) == misread(wire, 2, "RawCapture.modules"@),
        RawCapture::field_fault(4, wire, bytes, budget) == misread(wire, 2, "RawCapture.threads"@),
{
}

/// A field of a `InlineFrame` that is written in neither way is told by its name.
pub proof fn inline_frame_faults_name_their_field(wire: u8, bytes: Seq<u8>, budget: nat)
    requires
        wire != 0,
        wire != 2,
    ensures
        InlineFrame::field_fault(1, wire, bytes, budget) == misread(wire, 2, "InlineFrame.function"@),
        InlineFrame::field_fault(2, wire, bytes, budget) == misread(wire, 2, "InlineFrame.file"@),
        InlineFrame::field_fault(3, wire, bytes, budget) == misread(wire, 0, "InlineFrame.line"@),
{
}

/// A field of a `SymFrame` that is written in neither way is told by its name.
pub proof fn sym_frame_faults_name_their_field(wire: u8, bytes: Seq<u8>, budget: nat)
    requires
        wire != 0,
        wire != 2,
    ensures
        SymFrame::field_fault(1, wire, bytes, budget) == misread(wire, 2, "SymFrame.module"@),
        SymFrame::field_fault(2, wire, bytes, budget) == misread(wire, 0, "SymFrame.relative_address"@),
        SymFrame::field_fault(3, wire, bytes, budget) == misread(wire, 2, "SymFrame.function"@),
        SymFrame::field_fault(4, wire, bytes, budget) == misread(wire, 2, "SymFrame.file"@),
        SymFrame::field_fault(5, wire, bytes, budget) == misread(wire, 0, "SymFrame.line"@),
        SymFrame::field_fault(6, wire, bytes, budget) == misread(wire, 2, "SymFrame.inline_frames"@),
        SymFrame::field_fault(7, wire, bytes, budget) == misread(wire, 0, "SymFrame.status"@),
{
}

/// A field of a `SymThread` that is written in neither way is told by its name.
pub proof fn sym_thread_faults_name_their_field(wire: u8, bytes: Seq<u8>, budget: nat)
    requires
        wire != 0,
        wire != 2,
    ensures
        SymThread::field_fault(1, wire, bytes, budget) == misread(wire, 0, "SymThread.os_tid"@),
        SymThread::field_fault(2, wire, bytes, budget) == misread(wire, 2, "SymThread.name"@),
        SymThread::field_fault(3, wire, bytes, budget) == misread(wire, 2, "SymThread.frames"@),
        SymThread::field_fault(4, wire, bytes, budget) == misread(wire, 2, "SymThread.py_frames"@),
{
}

/// A field of a `ModuleReport` that is written in neither way is told by its name.
pub proof fn module_report_faults_name_their_field(wire: u8, bytes: Seq<u8>, budget: nat)
    requires
        wire != 0,
        wire != 2,
    ensures
        ModuleReport::field_fault(1, wire, bytes, budget) == misread(wire, 2, "ModuleReport.name"@),
        ModuleReport::field_fault(2, wire, bytes, budget) == misread(wire, 0, "ModuleReport.status"@),
        ModuleReport::field_fault(3, wire, bytes, budget) == misread(wire, 2, "ModuleReport.symbol_file"@),
        ModuleReport::field_fault(4, wire, bytes, budget) == misread(wire, 0, "ModuleReport.symbol_source"@),
        ModuleReport::field_fault(5, wire, bytes, budget) == misread(wire, 0, "ModuleReport.rejected_candidates"@),
{
}

/// A field of a `SymbolReport` that is written in neither way is told by its name.
pub proof fn symbol_report_faults_name_their_field(wire: u8, bytes: Seq<u8>, budget: nat)
    requires
        wire != 0,
        wire != 2,
    ensures
        SymbolReport::field_fault(1, wire, bytes, budget) == misread(wire, 2, "SymbolReport.threads"@),
        SymbolReport::field_fault(2, wire, bytes, budget) == misread(wire, 2, "SymbolReport.modules"@),
{
}

/// A capture that was written is read back, every member of it as it was.
pub proof fn written_captures_are_read_back(
    message: &RawCapture,
    bytes: Vec<u8>,
    sent: &[u8],
    read: Result<RawCapture, WireError>,
)
    requires
        call_ensures(RawCapture::encode_wire, (message,), bytes),
        call_ensures(RawCapture::decode_wire, (sent,), read),
        sent@ == bytes@,
        bytes@.len() <= u64::MAX,
    ensures
        read is Ok,
        read->Ok_0.model() == message.model(),
{
    lemma_message_round_trip::<RawCapture>(message.model(), RECURSION_LIMIT as nat);
}

/// A report that was written is read back, every member of it as it was.
pub proof fn written_symbol_reports_are_read_back(
    message: &SymbolReport,
    bytes: Vec<u8>,
    sent: &[u8],
    read: Result<SymbolReport, WireError>,
)
    requires
        call_ensures(SymbolReport::encode_wire, (message,), bytes),
        call_ensures(SymbolReport::decode_wire, (sent,), read),
        sent@ == bytes@,
        bytes@.len() <= u64::MAX,
    ensures
        read is Ok,
        read->Ok_0.model() == message.model(),
{
    lemma_message_round_trip::<SymbolReport>(message.model(), RECURSION_LIMIT as nat);
}

} // verus!
