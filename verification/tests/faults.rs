//! What is wrong with damaged messages, against what the protobuf crate says of the same
//! bytes.
use kernal_api::profile::pprof;
use kernal_api::symbolize::wire;
use prost::bytes::{Buf, BufMut};
use prost::encoding::{int64, message, skip_field, string, uint64, DecodeContext, WireType};
use prost::{DecodeError, Message};

fn at(
    result: Result<(), DecodeError>,
    name: &'static str,
    field: &'static str,
) -> Result<(), DecodeError> {
    result.map_err(|mut error| {
        error.push(name, field);
        error
    })
}

#[derive(Debug, Default)]
struct RawCapture;

impl Message for RawCapture {
    fn encode_raw(&self, _: &mut impl BufMut) {}

    fn merge_field(
        &mut self,
        tag: u32,
        wire: WireType,
        buf: &mut impl Buf,
        ctx: DecodeContext,
    ) -> Result<(), DecodeError> {
        match tag {
            1 => at(uint64::merge(wire, &mut 0, buf, ctx), "RawCapture", "format"),
            2 => at(message::merge(wire, &mut DiscoveryConfig, buf, ctx), "RawCapture", "discovery"),
            3 => at(message::merge(wire, &mut ModuleRef, buf, ctx), "RawCapture", "modules"),
            4 => at(message::merge(wire, &mut RawThread, buf, ctx), "RawCapture", "threads"),
            _ => skip_field(wire, tag, buf, ctx),
        }
    }

    fn encoded_len(&self) -> usize {
        0
    }

    fn clear(&mut self) {}
}

#[derive(Debug, Default)]
struct DiscoveryConfig;

impl Message for DiscoveryConfig {
    fn encode_raw(&self, _: &mut impl BufMut) {}

    fn merge_field(
        &mut self,
        tag: u32,
        wire: WireType,
        buf: &mut impl Buf,
        ctx: DecodeContext,
    ) -> Result<(), DecodeError> {
        match tag {
            1 => at(string::merge(wire, &mut String::new(), buf, ctx), "DiscoveryConfig", "registered_manifest"),
            2 => at(string::merge(wire, &mut String::new(), buf, ctx), "DiscoveryConfig", "registered_symbol_paths"),
            _ => skip_field(wire, tag, buf, ctx),
        }
    }

    fn encoded_len(&self) -> usize {
        0
    }

    fn clear(&mut self) {}
}

#[derive(Debug, Default)]
struct ModuleRef;

impl Message for ModuleRef {
    fn encode_raw(&self, _: &mut impl BufMut) {}

    fn merge_field(
        &mut self,
        tag: u32,
        wire: WireType,
        buf: &mut impl Buf,
        ctx: DecodeContext,
    ) -> Result<(), DecodeError> {
        match tag {
            1 => at(string::merge(wire, &mut String::new(), buf, ctx), "ModuleRef", "name"),
            2 => at(uint64::merge(wire, &mut 0, buf, ctx), "ModuleRef", "base_avma"),
            3 => at(string::merge(wire, &mut String::new(), buf, ctx), "ModuleRef", "code_id"),
            4 => at(string::merge(wire, &mut String::new(), buf, ctx), "ModuleRef", "debug_id"),
            5 => at(string::merge(wire, &mut String::new(), buf, ctx), "ModuleRef", "debug_file"),
            6 => at(string::merge(wire, &mut String::new(), buf, ctx), "ModuleRef", "path_hint"),
            7 => at(string::merge(wire, &mut String::new(), buf, ctx), "ModuleRef", "embedded_symbol_path"),
            _ => skip_field(wire, tag, buf, ctx),
        }
    }

    fn encoded_len(&self) -> usize {
        0
    }

    fn clear(&mut self) {}
}

#[derive(Debug, Default)]
struct RawThread;

impl Message for RawThread {
    fn encode_raw(&self, _: &mut impl BufMut) {}

    fn merge_field(
        &mut self,
        tag: u32,
        wire: WireType,
        buf: &mut impl Buf,
        ctx: DecodeContext,
    ) -> Result<(), DecodeError> {
        match tag {
            1 => at(uint64::merge(wire, &mut 0, buf, ctx), "RawThread", "os_tid"),
            2 => at(string::merge(wire, &mut String::new(), buf, ctx), "RawThread", "name"),
            3 => at(message::merge(wire, &mut RawFrame, buf, ctx), "RawThread", "frames"),
            4 => at(message::merge(wire, &mut PyFrame, buf, ctx), "RawThread", "py_frames"),
            _ => skip_field(wire, tag, buf, ctx),
        }
    }

    fn encoded_len(&self) -> usize {
        0
    }

    fn clear(&mut self) {}
}

#[derive(Debug, Default)]
struct RawFrame;

impl Message for RawFrame {
    fn encode_raw(&self, _: &mut impl BufMut) {}

    fn merge_field(
        &mut self,
        tag: u32,
        wire: WireType,
        buf: &mut impl Buf,
        ctx: DecodeContext,
    ) -> Result<(), DecodeError> {
        match tag {
            1 => at(uint64::merge(wire, &mut 0, buf, ctx), "RawFrame", "module_index"),
            2 => at(uint64::merge(wire, &mut 0, buf, ctx), "RawFrame", "relative_address"),
            _ => skip_field(wire, tag, buf, ctx),
        }
    }

    fn encoded_len(&self) -> usize {
        0
    }

    fn clear(&mut self) {}
}

#[derive(Debug, Default)]
struct PyFrame;

impl Message for PyFrame {
    fn encode_raw(&self, _: &mut impl BufMut) {}

    fn merge_field(
        &mut self,
        tag: u32,
        wire: WireType,
        buf: &mut impl Buf,
        ctx: DecodeContext,
    ) -> Result<(), DecodeError> {
        match tag {
            1 => at(string::merge(wire, &mut String::new(), buf, ctx), "PyFrame", "file"),
            2 => at(uint64::merge(wire, &mut 0, buf, ctx), "PyFrame", "line"),
            3 => at(string::merge(wire, &mut String::new(), buf, ctx), "PyFrame", "func"),
            _ => skip_field(wire, tag, buf, ctx),
        }
    }

    fn encoded_len(&self) -> usize {
        0
    }

    fn clear(&mut self) {}
}

#[derive(Debug, Default)]
struct Profile;

impl Message for Profile {
    fn encode_raw(&self, _: &mut impl BufMut) {}

    fn merge_field(
        &mut self,
        tag: u32,
        wire: WireType,
        buf: &mut impl Buf,
        ctx: DecodeContext,
    ) -> Result<(), DecodeError> {
        match tag {
            1 => at(message::merge(wire, &mut ValueType, buf, ctx), "Profile", "sample_type"),
            2 => at(message::merge(wire, &mut Sample, buf, ctx), "Profile", "sample"),
            3 => at(message::merge(wire, &mut Mapping, buf, ctx), "Profile", "mapping"),
            4 => at(message::merge(wire, &mut Location, buf, ctx), "Profile", "location"),
            5 => at(message::merge(wire, &mut Function, buf, ctx), "Profile", "function"),
            6 => at(string::merge(wire, &mut String::new(), buf, ctx), "Profile", "string_table"),
            7 => at(uint64::merge(wire, &mut 0, buf, ctx), "Profile", "drop_frames"),
            8 => at(uint64::merge(wire, &mut 0, buf, ctx), "Profile", "keep_frames"),
            9 => at(uint64::merge(wire, &mut 0, buf, ctx), "Profile", "time_nanos"),
            10 => at(uint64::merge(wire, &mut 0, buf, ctx), "Profile", "duration_nanos"),
            11 => at(message::merge(wire, &mut ValueType, buf, ctx), "Profile", "period_type"),
            12 => at(uint64::merge(wire, &mut 0, buf, ctx), "Profile", "period"),
            13 => at(int64::merge_repeated(wire, &mut Vec::new(), buf, ctx), "Profile", "comment"),
            14 => at(uint64::merge(wire, &mut 0, buf, ctx), "Profile", "default_sample_type"),
            _ => skip_field(wire, tag, buf, ctx),
        }
    }

    fn encoded_len(&self) -> usize {
        0
    }

    fn clear(&mut self) {}
}

#[derive(Debug, Default)]
struct ValueType;

impl Message for ValueType {
    fn encode_raw(&self, _: &mut impl BufMut) {}

    fn merge_field(
        &mut self,
        tag: u32,
        wire: WireType,
        buf: &mut impl Buf,
        ctx: DecodeContext,
    ) -> Result<(), DecodeError> {
        match tag {
            1 => at(uint64::merge(wire, &mut 0, buf, ctx), "ValueType", "r#type"),
            2 => at(uint64::merge(wire, &mut 0, buf, ctx), "ValueType", "unit"),
            _ => skip_field(wire, tag, buf, ctx),
        }
    }

    fn encoded_len(&self) -> usize {
        0
    }

    fn clear(&mut self) {}
}

#[derive(Debug, Default)]
struct Sample;

impl Message for Sample {
    fn encode_raw(&self, _: &mut impl BufMut) {}

    fn merge_field(
        &mut self,
        tag: u32,
        wire: WireType,
        buf: &mut impl Buf,
        ctx: DecodeContext,
    ) -> Result<(), DecodeError> {
        match tag {
            1 => at(int64::merge_repeated(wire, &mut Vec::new(), buf, ctx), "Sample", "location_id"),
            2 => at(int64::merge_repeated(wire, &mut Vec::new(), buf, ctx), "Sample", "value"),
            3 => at(message::merge(wire, &mut Label, buf, ctx), "Sample", "label"),
            _ => skip_field(wire, tag, buf, ctx),
        }
    }

    fn encoded_len(&self) -> usize {
        0
    }

    fn clear(&mut self) {}
}

#[derive(Debug, Default)]
struct Label;

impl Message for Label {
    fn encode_raw(&self, _: &mut impl BufMut) {}

    fn merge_field(
        &mut self,
        tag: u32,
        wire: WireType,
        buf: &mut impl Buf,
        ctx: DecodeContext,
    ) -> Result<(), DecodeError> {
        match tag {
            1 => at(uint64::merge(wire, &mut 0, buf, ctx), "Label", "key"),
            2 => at(uint64::merge(wire, &mut 0, buf, ctx), "Label", "str"),
            3 => at(uint64::merge(wire, &mut 0, buf, ctx), "Label", "num"),
            4 => at(uint64::merge(wire, &mut 0, buf, ctx), "Label", "num_unit"),
            _ => skip_field(wire, tag, buf, ctx),
        }
    }

    fn encoded_len(&self) -> usize {
        0
    }

    fn clear(&mut self) {}
}

#[derive(Debug, Default)]
struct Mapping;

impl Message for Mapping {
    fn encode_raw(&self, _: &mut impl BufMut) {}

    fn merge_field(
        &mut self,
        tag: u32,
        wire: WireType,
        buf: &mut impl Buf,
        ctx: DecodeContext,
    ) -> Result<(), DecodeError> {
        match tag {
            1 => at(uint64::merge(wire, &mut 0, buf, ctx), "Mapping", "id"),
            2 => at(uint64::merge(wire, &mut 0, buf, ctx), "Mapping", "memory_start"),
            3 => at(uint64::merge(wire, &mut 0, buf, ctx), "Mapping", "memory_limit"),
            4 => at(uint64::merge(wire, &mut 0, buf, ctx), "Mapping", "file_offset"),
            5 => at(uint64::merge(wire, &mut 0, buf, ctx), "Mapping", "filename"),
            6 => at(uint64::merge(wire, &mut 0, buf, ctx), "Mapping", "build_id"),
            7 => at(uint64::merge(wire, &mut 0, buf, ctx), "Mapping", "has_functions"),
            8 => at(uint64::merge(wire, &mut 0, buf, ctx), "Mapping", "has_filenames"),
            9 => at(uint64::merge(wire, &mut 0, buf, ctx), "Mapping", "has_line_numbers"),
            10 => at(uint64::merge(wire, &mut 0, buf, ctx), "Mapping", "has_inline_frames"),
            _ => skip_field(wire, tag, buf, ctx),
        }
    }

    fn encoded_len(&self) -> usize {
        0
    }

    fn clear(&mut self) {}
}

#[derive(Debug, Default)]
struct Location;

impl Message for Location {
    fn encode_raw(&self, _: &mut impl BufMut) {}

    fn merge_field(
        &mut self,
        tag: u32,
        wire: WireType,
        buf: &mut impl Buf,
        ctx: DecodeContext,
    ) -> Result<(), DecodeError> {
        match tag {
            1 => at(uint64::merge(wire, &mut 0, buf, ctx), "Location", "id"),
            2 => at(uint64::merge(wire, &mut 0, buf, ctx), "Location", "mapping_id"),
            3 => at(uint64::merge(wire, &mut 0, buf, ctx), "Location", "address"),
            4 => at(message::merge(wire, &mut Line, buf, ctx), "Location", "line"),
            5 => at(uint64::merge(wire, &mut 0, buf, ctx), "Location", "is_folded"),
            _ => skip_field(wire, tag, buf, ctx),
        }
    }

    fn encoded_len(&self) -> usize {
        0
    }

    fn clear(&mut self) {}
}

#[derive(Debug, Default)]
struct Line;

impl Message for Line {
    fn encode_raw(&self, _: &mut impl BufMut) {}

    fn merge_field(
        &mut self,
        tag: u32,
        wire: WireType,
        buf: &mut impl Buf,
        ctx: DecodeContext,
    ) -> Result<(), DecodeError> {
        match tag {
            1 => at(uint64::merge(wire, &mut 0, buf, ctx), "Line", "function_id"),
            2 => at(uint64::merge(wire, &mut 0, buf, ctx), "Line", "line"),
            _ => skip_field(wire, tag, buf, ctx),
        }
    }

    fn encoded_len(&self) -> usize {
        0
    }

    fn clear(&mut self) {}
}

#[derive(Debug, Default)]
struct Function;

impl Message for Function {
    fn encode_raw(&self, _: &mut impl BufMut) {}

    fn merge_field(
        &mut self,
        tag: u32,
        wire: WireType,
        buf: &mut impl Buf,
        ctx: DecodeContext,
    ) -> Result<(), DecodeError> {
        match tag {
            1 => at(uint64::merge(wire, &mut 0, buf, ctx), "Function", "id"),
            2 => at(uint64::merge(wire, &mut 0, buf, ctx), "Function", "name"),
            3 => at(uint64::merge(wire, &mut 0, buf, ctx), "Function", "system_name"),
            4 => at(uint64::merge(wire, &mut 0, buf, ctx), "Function", "filename"),
            5 => at(uint64::merge(wire, &mut 0, buf, ctx), "Function", "start_line"),
            _ => skip_field(wire, tag, buf, ctx),
        }
    }

    fn encoded_len(&self) -> usize {
        0
    }

    fn clear(&mut self) {}
}

/// Numbers that look random and are the same in every run.
struct Numbers(u64);

impl Numbers {
    fn below(&mut self, limit: usize) -> usize {
        self.0 = self
            .0
            .wrapping_mul(6_364_136_223_846_793_005)
            .wrapping_add(1_442_695_040_888_963_407);
        (self.0 >> 33) as usize % limit
    }

    /// The bytes with a few of them changed, taken out or put in.
    fn damaged(&mut self, bytes: &[u8]) -> Vec<u8> {
        let mut damaged = bytes.to_vec();
        for _ in 0..=self.below(3) {
            if damaged.is_empty() {
                break;
            }
            let place = self.below(damaged.len());
            match self.below(5) {
                0 => damaged.truncate(place),
                1 => {
                    damaged.remove(place);
                }
                2 => damaged.insert(place, self.below(256) as u8),
                3 => damaged[place] = damaged[place].wrapping_add(1),
                _ => damaged[place] = self.below(256) as u8,
            }
        }
        damaged
    }
}

fn sample_capture() -> wire::RawCapture {
    wire::RawCapture {
        format: wire::CaptureFormat::Minidump,
        discovery: wire::DiscoveryConfig {
            registered_manifest: Some("manifest".to_string()),
            registered_symbol_paths: vec!["a".to_string(), "\u{e4}".to_string()],
        },
        modules: vec![wire::ModuleRef {
            name: "app".to_string(),
            base_avma: 0x1_0000,
            code_id: Some("c".to_string()),
            path_hint: Some("/opt/app".to_string()),
            ..Default::default()
        }],
        threads: vec![wire::RawThread {
            os_tid: 7,
            name: Some("main".to_string()),
            frames: vec![
                wire::RawFrame {
                    module_index: 0,
                    relative_address: 300,
                },
                wire::RawFrame {
                    module_index: 1,
                    relative_address: 5,
                },
            ],
            py_frames: vec![wire::PyFrame {
                file: "x.py".to_string(),
                line: 3,
                func: "f".to_string(),
            }],
        }],
    }
}

#[test]
fn damaged_captures_are_told_as_the_protobuf_crate_tells_them() {
    let bytes = sample_capture().encode_wire();
    let mut numbers = Numbers(1);
    let mut refused = 0;
    for _ in 0..40_000 {
        let damaged = numbers.damaged(&bytes);
        let expected = RawCapture::decode(damaged.as_slice());
        let found = wire::RawCapture::decode_wire(&damaged);
        assert_eq!(found.is_ok(), expected.is_ok(), "{damaged:?}");
        if let (Err(found), Err(expected)) = (found, expected) {
            refused += 1;
            assert_eq!(
                found.message(),
                format!("invalid kernal-api symbolization protobuf: {expected}"),
                "{damaged:?}"
            );
        }
    }
    assert!(refused > 10_000);
}

#[test]
fn damaged_profiles_are_told_as_the_protobuf_crate_tells_them() {
    let value = |type_, unit| pprof::ValueType { type_, unit };
    let profile = pprof::Profile {
        sample_type: vec![value(1, 2)],
        sample: vec![pprof::Sample {
            location_id: vec![1, 300, 70_000],
            value: vec![-1, 5],
            label: vec![pprof::Label {
                key: 1,
                str: 2,
                num: 3,
                num_unit: 4,
            }],
        }],
        location: vec![pprof::Location {
            id: 1,
            mapping_id: 2,
            address: 3,
            line: vec![pprof::Line {
                function_id: 300,
                line: 9,
            }],
            is_folded: true,
        }],
        string_table: vec![String::new(), "cpu".to_string()],
        period_type: Some(value(3, 4)),
        comment: vec![1, 300],
        ..Default::default()
    };
    let bytes = profile.encode();
    let mut numbers = Numbers(2);
    let mut refused = 0;
    for _ in 0..40_000 {
        let damaged = numbers.damaged(&bytes);
        let expected = Profile::decode(damaged.as_slice());
        let found = pprof::Profile::decode(&damaged);
        assert_eq!(found.is_ok(), expected.is_ok(), "{damaged:?}");
        if let (Err(found), Err(expected)) = (found, expected) {
            refused += 1;
            assert_eq!(found.message(), expected.to_string(), "{damaged:?}");
        }
    }
    assert!(refused > 10_000);
}
