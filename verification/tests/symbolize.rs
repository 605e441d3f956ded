use kernal_api::host::{HostError, HostErrorKind};
use kernal_api::symbolize::client::{
    default_worker_path, read_worker_output, SymbolizerWorker, WorkerError,
    MAX_WORKER_STDERR_BYTES, SYMBOLIZER_WORKER_ENV,
};
use kernal_api::symbolize::codec::{encode_fields, take_field, Field, FieldValue, WireFault};
use kernal_api::symbolize::crc::crc32;
use kernal_api::symbolize::image::{
    choose_offset, find_offset, find_symbol, has_debug_info, identity_of, place_address,
    spell_identity,
    ImageExport, ImageName, ImageSymbol, PdbInfo, HIGHEST_BASE,
};
use kernal_api::symbolize::pdb::pdb_identity;
use kernal_api::symbolize::plan::{
    DsymPlan, DsymStage, GnuPlan, GnuStage, SplitAction,
};
use kernal_api::symbolize::split::{
    admit_gnu_split, admit_identified, admit_image, appended_extension, check_gnu_pair,
    choose_pdb, debuglink_argument, dsym_dwarf_binary, file_name, inspect_dsym_bundle,
    inspect_gnu_debuglink, locate_linker_pdb, parent_directory, parse_object, probe_tool,
    recorded_pdb, tool_failure, DebugSplit, DebugSplitError, DebugSplitRequest, SplitMechanism,
    MAX_IMAGE_BYTES, MAX_TOOL_STDERR_BYTES,
};
use kernal_api::symbolize::wire::{
    CaptureFormat, DiscoverySource, FrameStatus, InlineFrame, ModuleRef, ModuleReport,
    ModuleSymbolStatus, PyFrame, RawCapture, RawFrame, RawThread, SymFrame, SymThread,
    SymbolReport,
};

// ---------------------------------------------------------------------------
// Object files
// ---------------------------------------------------------------------------

struct Section {
    name: &'static str,
    kind: u32,
    link: u32,
    entry: u64,
    data: Vec<u8>,
}

fn section(name: &'static str, data: &[u8]) -> Section {
    Section {
        name,
        kind: 1,
        link: 0,
        entry: 0,
        data: data.to_vec(),
    }
}

/// A 64-bit little-endian ELF file that holds the sections.
fn elf(sections: &[Section]) -> Vec<u8> {
    let mut names = vec![0_u8];
    let mut offsets = Vec::new();
    for name in sections.iter().map(|section| section.name).chain([".shstrtab"]) {
        offsets.push(names.len() as u32);
        names.extend_from_slice(name.as_bytes());
        names.push(0);
    }
    let mut data = Vec::new();
    let mut headers = vec![0_u8; 64];
    let mut header = |name: u32, kind: u32, at: usize, size: usize, link: u32, entry: u64| {
        headers.extend_from_slice(&name.to_le_bytes());
        headers.extend_from_slice(&kind.to_le_bytes());
        headers.extend_from_slice(&[0; 16]);
        headers.extend_from_slice(&(at as u64).to_le_bytes());
        headers.extend_from_slice(&(size as u64).to_le_bytes());
        headers.extend_from_slice(&link.to_le_bytes());
        headers.extend_from_slice(&0_u32.to_le_bytes());
        headers.extend_from_slice(&4_u64.to_le_bytes());
        headers.extend_from_slice(&entry.to_le_bytes());
    };
    for (section, name) in sections.iter().zip(&offsets) {
        header(
            *name,
            section.kind,
            64 + data.len(),
            section.data.len(),
            section.link,
            section.entry,
        );
        data.extend_from_slice(&section.data);
        while data.len() % 8 != 0 {
            data.push(0);
        }
    }
    header(
        offsets[sections.len()],
        3,
        64 + data.len(),
        names.len(),
        0,
        0,
    );
    data.extend_from_slice(&names);
    while data.len() % 8 != 0 {
        data.push(0);
    }
    let mut file = vec![0x7f, b'E', b'L', b'F', 2, 1, 1, 0, 0, 0, 0, 0, 0, 0, 0, 0];
    file.extend_from_slice(&3_u16.to_le_bytes());
    file.extend_from_slice(&62_u16.to_le_bytes());
    file.extend_from_slice(&1_u32.to_le_bytes());
    file.extend_from_slice(&[0; 16]);
    file.extend_from_slice(&(64 + data.len() as u64).to_le_bytes());
    file.extend_from_slice(&0_u32.to_le_bytes());
    for value in [64_u16, 56, 0, 64, sections.len() as u16 + 2, sections.len() as u16 + 1] {
        file.extend_from_slice(&value.to_le_bytes());
    }
    file.extend_from_slice(&data);
    file.extend_from_slice(&headers);
    file
}

fn build_id_note(id: &[u8]) -> Section {
    let mut data = Vec::new();
    data.extend_from_slice(&4_u32.to_le_bytes());
    data.extend_from_slice(&(id.len() as u32).to_le_bytes());
    data.extend_from_slice(&3_u32.to_le_bytes());
    data.extend_from_slice(b"GNU\0");
    data.extend_from_slice(id);
    Section {
        name: ".note.gnu.build-id",
        kind: 7,
        link: 0,
        entry: 0,
        data,
    }
}

fn debuglink(name: &str, crc: u32) -> Section {
    let mut data = name.as_bytes().to_vec();
    data.push(0);
    while data.len() % 4 != 0 {
        data.push(0);
    }
    data.extend_from_slice(&crc.to_le_bytes());
    section(".gnu_debuglink", &data)
}

/// A symbol table (at the given place) and its names, directly after it.
fn symbols(place: u32, kind: u32, list: &[(&str, u16, u64)]) -> Vec<Section> {
    let mut names = vec![0_u8];
    let mut table = vec![0_u8; 24];
    for (name, shndx, address) in list {
        table.extend_from_slice(&(names.len() as u32).to_le_bytes());
        table.push(0x12);
        table.push(0);
        table.extend_from_slice(&shndx.to_le_bytes());
        table.extend_from_slice(&address.to_le_bytes());
        table.extend_from_slice(&8_u64.to_le_bytes());
        names.extend_from_slice(name.as_bytes());
        names.push(0);
    }
    vec![
        Section {
            name: if kind == 2 { ".symtab" } else { ".dynsym" },
            kind,
            link: place + 1,
            entry: 24,
            data: table,
        },
        Section {
            name: if kind == 2 { ".strtab" } else { ".dynstr" },
            kind: 3,
            link: 0,
            entry: 0,
            data: names,
        },
    ]
}

/// A 64-bit Mach-O file that holds nothing but an identifier.
fn mach_o(uuid: [u8; 16]) -> Vec<u8> {
    let mut file = Vec::new();
    for value in [0xfeed_facf_u32, 0x0100_0007, 3, 2, 1, 24, 0, 0] {
        file.extend_from_slice(&value.to_le_bytes());
    }
    file.extend_from_slice(&0x1b_u32.to_le_bytes());
    file.extend_from_slice(&24_u32.to_le_bytes());
    file.extend_from_slice(&uuid);
    file
}

const IMAGE_BASE: u64 = 0x1_4000_0000;
const SECTION_RVA: u32 = 0x1000;
const SECTION_AT: u32 = 0x400;

/// A 64-bit PE file with a CodeView record and one export at `0x1234`.
fn pe(guid: [u8; 16], age: u32, path: &str, export: &str) -> Vec<u8> {
    let mut body = Vec::new();
    // Debug directory: one CodeView entry.
    let record_at = 28_u32;
    let mut record = b"RSDS".to_vec();
    record.extend_from_slice(&guid);
    record.extend_from_slice(&age.to_le_bytes());
    record.extend_from_slice(path.as_bytes());
    record.push(0);
    for value in [
        0_u32,
        0,
        0,
        2,
        record.len() as u32,
        SECTION_RVA + record_at,
        SECTION_AT + record_at,
    ] {
        body.extend_from_slice(&value.to_le_bytes());
    }
    body.extend_from_slice(&record);
    while body.len() % 4 != 0 {
        body.push(0);
    }
    // Export directory.
    let exports_at = body.len() as u32;
    let functions = exports_at + 40;
    let names = functions + 4;
    let ordinals = names + 4;
    let module_name = ordinals + 4;
    let name = module_name + 4;
    for value in [
        0,
        0,
        0,
        SECTION_RVA + module_name,
        1,
        1,
        1,
        SECTION_RVA + functions,
        SECTION_RVA + names,
        SECTION_RVA + ordinals,
        0x1234,
        SECTION_RVA + name,
        0,
    ] {
        body.extend_from_slice(&value.to_le_bytes());
    }
    body.extend_from_slice(b"m\0\0\0");
    body.extend_from_slice(export.as_bytes());
    body.push(0);
    let exports_size = body.len() as u32 - exports_at;
    body.resize(0x400, 0);

    let mut file = vec![0_u8; 0x80];
    file[0..2].copy_from_slice(b"MZ");
    file[0x3c..0x40].copy_from_slice(&0x80_u32.to_le_bytes());
    file.extend_from_slice(b"PE\0\0");
    for value in [0x8664_u16, 1, 0, 0, 0, 0, 0, 0, 240, 0x22] {
        file.extend_from_slice(&value.to_le_bytes());
    }
    let mut header = vec![0_u8; 240];
    header[0..2].copy_from_slice(&0x20b_u16.to_le_bytes());
    header[24..32].copy_from_slice(&IMAGE_BASE.to_le_bytes());
    header[32..36].copy_from_slice(&0x1000_u32.to_le_bytes());
    header[36..40].copy_from_slice(&0x200_u32.to_le_bytes());
    header[56..60].copy_from_slice(&0x2000_u32.to_le_bytes());
    header[60..64].copy_from_slice(&SECTION_AT.to_le_bytes());
    header[108..112].copy_from_slice(&16_u32.to_le_bytes());
    header[112..116].copy_from_slice(&(SECTION_RVA + exports_at).to_le_bytes());
    header[116..120].copy_from_slice(&exports_size.to_le_bytes());
    header[160..164].copy_from_slice(&SECTION_RVA.to_le_bytes());
    header[164..168].copy_from_slice(&28_u32.to_le_bytes());
    file.extend_from_slice(&header);
    let mut table = vec![0_u8; 40];
    table[0..6].copy_from_slice(b".rdata");
    table[8..12].copy_from_slice(&0x400_u32.to_le_bytes());
    table[12..16].copy_from_slice(&SECTION_RVA.to_le_bytes());
    table[16..20].copy_from_slice(&0x400_u32.to_le_bytes());
    table[20..24].copy_from_slice(&SECTION_AT.to_le_bytes());
    table[36..40].copy_from_slice(&0x4000_0040_u32.to_le_bytes());
    file.extend_from_slice(&table);
    file.resize(SECTION_AT as usize, 0);
    file.extend_from_slice(&body);
    file
}

const GUID: [u8; 16] = [
    0x00, 0x01, 0x02, 0x03, 0x04, 0x05, 0x06, 0x07, 0x08, 0x09, 0x0a, 0x0b, 0x0c, 0x0d, 0x0e, 0x0f,
];

#[test]
fn identities_are_spelled_by_format() {
    let id = [0xab, 0xcd, 0x01, 0x02];
    assert_eq!(
        identity_of(&elf(&[build_id_note(&id)])).as_deref(),
        Some("elf:abcd0102")
    );
    assert_eq!(
        identity_of(&mach_o(GUID)).as_deref(),
        Some("macho:000102030405060708090a0b0c0d0e0f")
    );
    let image = pe(GUID, 17, "C:\\out\\app.pdb", "start");
    assert_eq!(
        identity_of(&image).as_deref(),
        Some("pdb:030201000504070608090a0b0c0d0e0f-17")
    );
    assert_eq!(recorded_pdb(&image).as_deref(), Some("C:\\out\\app.pdb"));
    assert_eq!(identity_of(&elf(&[])), None);
    assert_eq!(identity_of(b"no object file"), None);
    assert_eq!(recorded_pdb(&elf(&[])), None);
}

#[test]
fn the_first_identity_counts() {
    let pdb = Some(PdbInfo {
        guid: GUID.to_vec(),
        age: 1,
        path: Vec::new(),
    });
    let uuid = Some(vec![0xff]);
    assert_eq!(
        spell_identity(&Some(vec![0x0a]), &uuid, &pdb).as_deref(),
        Some("elf:0a")
    );
    assert_eq!(
        spell_identity(&None, &uuid, &pdb).as_deref(),
        Some("macho:ff")
    );
    assert_eq!(
        spell_identity(&None, &None, &pdb).as_deref(),
        Some("pdb:030201000504070608090a0b0c0d0e0f-1")
    );
    assert_eq!(spell_identity(&None, &None, &None), None);
}

#[test]
fn debug_information_is_found_by_section() {
    assert!(has_debug_info(&elf(&[section(".debug_info", &[1])])));
    assert!(has_debug_info(&elf(&[section("__debug_info", &[1])])));
    assert!(!has_debug_info(&elf(&[section(".text", &[1])])));
    assert!(!has_debug_info(b"no object file"));
}

#[test]
fn functions_are_found_in_every_table() {
    let mut tables = symbols(
        1,
        2,
        &[("imported", 0, 0), ("main", 0xfff1, 0x1111)],
    );
    tables.extend(symbols(3, 11, &[("visible", 0xfff1, 0x2222)]));
    let file = elf(&tables);
    assert_eq!(find_offset(&file, "main"), Some(0x1111));
    assert_eq!(find_offset(&file, "visible"), Some(0x2222));
    assert_eq!(find_offset(&file, "imported"), None);
    assert_eq!(find_offset(&file, "absent"), None);
    assert_eq!(find_offset(b"no object file", "main"), None);
    let image = pe(GUID, 1, "a.pdb", "start");
    assert_eq!(find_offset(&image, "start"), Some(0x1234));
}

/// The image with a base of its own and one symbol in its first section.
fn pe_with_symbol(base: u64, value: u32) -> Vec<u8> {
    let mut image = pe(GUID, 1, "a.pdb", "start");
    let table_at = image.len() as u32;
    image[0x8c..0x90].copy_from_slice(&table_at.to_le_bytes());
    image[0x90..0x94].copy_from_slice(&1_u32.to_le_bytes());
    image[0xb0..0xb8].copy_from_slice(&base.to_le_bytes());
    image.extend_from_slice(b"listed\0\0");
    image.extend_from_slice(&value.to_le_bytes());
    image.extend_from_slice(&[1, 0, 0, 0, 2, 0]);
    image.extend_from_slice(&4_u32.to_le_bytes());
    image
}

#[test]
fn addresses_are_found_up_to_the_highest() {
    let place = u64::from(SECTION_RVA) + 0x10;
    for base in [0, IMAGE_BASE, HIGHEST_BASE] {
        let image = pe_with_symbol(base, 0x10);
        assert_eq!(find_offset(&image, "listed"), Some(place));
    }
    for base in [HIGHEST_BASE + 1, u64::MAX - place] {
        let image = pe_with_symbol(base, 0x10);
        assert_eq!(find_offset(&image, "listed"), Some(place));
    }
    for base in [u64::MAX - place + 1, u64::MAX] {
        let image = pe_with_symbol(base, 0x10);
        assert_eq!(find_offset(&image, "listed"), None);
    }
    assert_eq!(place_address(10, Some(5)), 15);
    assert_eq!(place_address(u64::MAX, Some(5)), 4);
    assert_eq!(place_address(10, None), 0);
}

/// A PDB with blocks of 512 bytes: the header, its list of blocks, its directory, and
/// the first blocks of two of its streams.
fn pdb(guid: [u8; 16], own_age: u32, debug_age: Option<u32>) -> Vec<u8> {
    let mut file = b"Microsoft C/C++ MSF 7.00\r\n\x1aDS\0\0\0".to_vec();
    let debug = if debug_age.is_some() { 64 } else { u32::MAX };
    // Stream 0 has 600 bytes and so two blocks; stream 2 has none.
    let mut directory: Vec<u32> = vec![4, 600, 28, 0, debug, 6, 7, 3, 4];
    if debug_age.is_none() {
        directory.pop();
    }
    for word in [512, 1, 8, 4 * directory.len() as u32, 0, 1] {
        file.extend_from_slice(&u32::to_le_bytes(word));
    }
    file.resize(512, 0);
    file.extend_from_slice(&2_u32.to_le_bytes());
    file.resize(1024, 0);
    for word in directory {
        file.extend_from_slice(&word.to_le_bytes());
    }
    file.resize(1536, 0);
    for word in [20_000_404_u32, 0, own_age] {
        file.extend_from_slice(&word.to_le_bytes());
    }
    file.extend_from_slice(&guid);
    file.resize(2048, 0);
    for word in [u32::MAX, 19_990_903, debug_age.unwrap_or(0)] {
        file.extend_from_slice(&word.to_le_bytes());
    }
    file.resize(4096, 0);
    file
}

#[test]
fn pdbs_carry_the_identity_of_their_image() {
    let file = pdb(GUID, 9, Some(17));
    assert_eq!(
        pdb_identity(&file),
        identity_of(&pe(GUID, 17, "C:\\out\\app.pdb", "start"))
    );
    assert_eq!(
        pdb_identity(&pdb(GUID, 9, None)).as_deref(),
        Some("pdb:030201000504070608090a0b0c0d0e0f-9")
    );
    assert_eq!(pdb_identity(b"no pdb"), None);
    for cut in [0, 56, 512, 515, 1024, 1030, 1536, 1563] {
        assert_eq!(pdb_identity(&file[..cut]), None);
    }
    let mut other = file.clone();
    other[0] = b'm';
    assert_eq!(pdb_identity(&other), None);
    let mut other = file;
    other[32..36].copy_from_slice(&0_u32.to_le_bytes());
    assert_eq!(pdb_identity(&other), None);
}

#[test]
fn tables_are_asked_in_order_and_below_the_base_is_nothing() {
    let symbol = |name: &str, undefined, address| ImageSymbol {
        name: Some(name.to_string()),
        undefined,
        address,
    };
    let entry = |name: &str, undefined| ImageName {
        name: Some(name.to_string()),
        undefined,
    };
    let nameless = ImageName {
        name: None,
        undefined: false,
    };
    let table = vec![entry("f", true), nameless, entry("f", false), entry("f", false)];
    assert_eq!(find_symbol(&table, "f"), Some(2));
    assert_eq!(find_symbol(&table, "g"), None);
    let dynamic = vec![symbol("f", false, 30), symbol("g", false, 40)];
    let exports = vec![ImageExport {
        name: b"h".to_vec(),
        address: 50,
    }];
    let find = |name: &str, base| {
        let listed = find_symbol(&table, name).map(|_| 20);
        choose_offset(listed, &dynamic, &exports, base, name)
    };
    assert_eq!(find("f", 10), Some(10));
    assert_eq!(find("g", 10), Some(30));
    assert_eq!(find("h", 10), Some(40));
    assert_eq!(find("f", 21), None);
    assert_eq!(find("i", 0), None);
}

// ---------------------------------------------------------------------------
// Splitting
// ---------------------------------------------------------------------------

#[test]
fn the_checksum_matches_the_published_crc32_vector() {
    assert_eq!(crc32(b"123456789"), 0xcbf4_3926);
    assert_eq!(crc32(b""), 0);
}

#[test]
fn the_symbol_file_name_keeps_the_binary_extension() {
    assert_eq!(
        appended_extension("/opt/lib/libfoo.so.1", ".debug"),
        "/opt/lib/libfoo.so.1.debug"
    );
}

#[test]
fn every_reported_mechanism_covers_the_whole_linked_image() {
    for mechanism in [
        SplitMechanism::GnuDebugLink,
        SplitMechanism::DsymBundle,
        SplitMechanism::LinkerPdb,
    ] {
        assert!(mechanism.covers_linked_image(), "{}", mechanism.label());
    }
}

#[test]
fn the_dsym_symbol_file_is_the_binary_inside_the_bundle() {
    assert_eq!(
        dsym_dwarf_binary("/tmp/app.dSYM", "/tmp/app"),
        "/tmp/app.dSYM/Contents/Resources/DWARF/app"
    );
}

#[test]
fn a_sibling_symbol_file_is_linked_by_bare_name() {
    assert_eq!(
        debuglink_argument("/opt/app.debug", "/opt"),
        "--add-gnu-debuglink=app.debug"
    );
    assert_eq!(
        debuglink_argument("/elsewhere/app.debug", "/opt"),
        "--add-gnu-debuglink=/elsewhere/app.debug"
    );
}

#[test]
fn names_of_paths() {
    assert_eq!(file_name("/a/b.so"), "b.so");
    assert_eq!(file_name("/"), "/");
    assert_eq!(parent_directory("/a/b"), "/a");
    assert_eq!(parent_directory("b"), ".");
    let request = DebugSplitRequest::new("/a/b".to_string());
    assert_eq!(request.binary(), "/a/b");
    assert_eq!(request.requested_symbol_file(), None);
    assert_eq!(
        request.symbol_file("/c".to_string()).requested_symbol_file(),
        Some("/c".to_string())
    );
}

#[test]
fn images_are_admitted_by_size_and_content() {
    assert!(admit_image("/a", MAX_IMAGE_BYTES).is_ok());
    assert!(matches!(
        admit_image("/a", MAX_IMAGE_BYTES + 1),
        Err(DebugSplitError::ImageTooLarge { bytes, limit, .. })
            if bytes == limit + 1
    ));
    assert!(parse_object("/a", &elf(&[])).is_ok());
    match parse_object("/a", b"no object file") {
        Err(DebugSplitError::UnreadableImage { path, reason }) => {
            assert_eq!(path, "/a");
            let expected = object::File::parse(&b"no object file"[..]).unwrap_err();
            assert_eq!(reason, expected.to_string());
        }
        _ => panic!("bytes that are no object file must be refused"),
    }
    let both = elf(&[build_id_note(&[7]), section(".debug_info", &[1])]);
    assert_eq!(admit_gnu_split("/a", &both).unwrap(), "elf:07");
    assert!(matches!(
        admit_gnu_split("/a", &elf(&[build_id_note(&[7])])),
        Err(DebugSplitError::DebugInfoMissing { .. })
    ));
    assert!(matches!(
        admit_gnu_split("/a", &elf(&[section(".debug_info", &[1])])),
        Err(DebugSplitError::BuildIdentityMissing { .. })
    ));
    assert_eq!(
        admit_identified("/a", &mach_o([9; 16])).unwrap(),
        "macho:09090909090909090909090909090909"
    );
    assert!(matches!(
        admit_identified("/a", &elf(&[])),
        Err(DebugSplitError::BuildIdentityMissing { .. })
    ));
    assert!(matches!(
        admit_identified("/a", b""),
        Err(DebugSplitError::UnreadableImage { .. })
    ));
}

#[test]
fn tools_are_probed_and_their_failures_bounded() {
    let names = || vec!["llvm-objcopy".to_string(), "objcopy".to_string()];
    assert_eq!(
        probe_tool(SplitMechanism::GnuDebugLink, names(), Some(1)).unwrap(),
        "objcopy"
    );
    match probe_tool(SplitMechanism::GnuDebugLink, names(), None) {
        Err(DebugSplitError::MechanismUnavailable { missing, .. }) => {
            assert_eq!(missing, names())
        }
        _ => panic!("no tool ran"),
    }
    let mut noise = b"  bad \xff ".to_vec();
    noise.extend(vec![b'x'; 2 * MAX_TOOL_STDERR_BYTES]);
    match tool_failure("strip", Some(1), &noise) {
        DebugSplitError::Tool {
            program,
            status,
            stderr,
        } => {
            assert_eq!(program, "strip");
            assert_eq!(status, Some(1));
            assert!(stderr.starts_with("bad \u{fffd} xxx"));
            assert_eq!(stderr.len(), MAX_TOOL_STDERR_BYTES);
        }
        _ => panic!("a tool failed"),
    }
}

fn gnu_split() -> DebugSplit {
    GnuPlan::new(
        "/opt/app".to_string(),
        None,
        "objcopy".to_string(),
        "strip".to_string(),
    )
    .into_split("elf:07".to_string())
}

#[test]
fn a_produced_pair_is_read_again() {
    let split = gnu_split();
    assert_eq!(split.binary(), "/opt/app");
    assert_eq!(split.symbol_file(), "/opt/app.debug");
    assert_eq!(split.build_identity(), "elf:07");
    assert_eq!(split.mechanism(), SplitMechanism::GnuDebugLink);
    assert_eq!(split.resolution_image(), "/opt/app.debug");
    let symbols = elf(&[build_id_note(&[7]), section(".debug_info", &[1])]);
    let crc = crc32(&symbols);
    let binary = |name: &str, crc| elf(&[build_id_note(&[7]), debuglink(name, crc)]);
    assert!(inspect_gnu_debuglink(&split, &binary("app.debug", crc), &symbols).is_ok());
    let reason = |binary: &[u8], symbols: &[u8]| match inspect_gnu_debuglink(
        &split, binary, symbols,
    ) {
        Err(DebugSplitError::IncompleteSplit { reason, .. }) => reason,
        _ => panic!("the pair must be refused"),
    };
    assert!(reason(&binary("app.debug", crc ^ 1), &symbols).contains("CRC-32"));
    assert!(reason(&binary("other.debug", crc), &symbols).contains("different file"));
    assert!(reason(&elf(&[build_id_note(&[7])]), &symbols).contains("no .gnu_debuglink"));
    assert!(reason(&symbols, &symbols).contains("still carries DWARF"));
    let stranger = elf(&[build_id_note(&[8]), section(".debug_info", &[1])]);
    assert!(reason(&binary("app.debug", crc), &stranger).contains("identity"));
    assert!(reason(&binary("app.debug", crc), &elf(&[])).contains("no DWARF"));
    assert!(matches!(
        inspect_gnu_debuglink(&split, b"", &symbols),
        Err(DebugSplitError::UnreadableImage { path, .. }) if path == "/opt/app"
    ));
}

#[test]
fn pair_faults_come_in_order() {
    let link = Some(("app.debug".to_string(), 3));
    let id = Some("elf:07".to_string());
    let fault = |debug, symbols, id: &Option<String>, link: &Option<(String, u32)>| {
        check_gnu_pair(debug, symbols, id, "elf:07", link, "app.debug", 3)
    };
    assert_eq!(fault(false, true, &id, &link), None);
    assert!(fault(true, false, &None, &None).unwrap().contains("duplicated"));
    assert!(fault(false, false, &None, &None)
        .unwrap()
        .contains("no DWARF"));
    assert!(fault(false, true, &None, &None).unwrap().contains("identity"));
    assert!(fault(false, true, &id, &None)
        .unwrap()
        .contains("no .gnu_debuglink"));
}

#[test]
fn a_bundle_is_read_again() {
    let plan = DsymPlan::new(
        "/opt/app".to_string(),
        None,
        "dsymutil".to_string(),
        "strip".to_string(),
    );
    let split = plan.into_split("elf:07".to_string());
    assert_eq!(split.symbol_file(), "/opt/app.dSYM");
    assert_eq!(
        split.resolution_image(),
        "/opt/app.dSYM/Contents/Resources/DWARF/app"
    );
    let good = elf(&[build_id_note(&[7]), section("__debug_info", &[1])]);
    assert!(inspect_dsym_bundle(&split, Some(&good)).is_ok());
    let reason = |dwarf: Option<&[u8]>| match inspect_dsym_bundle(&split, dwarf) {
        Err(DebugSplitError::IncompleteSplit { reason, .. }) => reason,
        _ => panic!("the bundle must be refused"),
    };
    assert!(reason(None).contains("no DWARF binary"));
    assert!(reason(Some(&elf(&[]))).contains("carries no DWARF"));
    let stranger = elf(&[build_id_note(&[8]), section("__debug_info", &[1])]);
    assert!(reason(Some(&stranger)).contains("UUID"));
}

#[test]
fn pdbs_are_looked_for_where_they_may_be() {
    let text = |text: &str| Some(text.to_string());
    let sibling = || "/s.pdb".to_string();
    assert_eq!(choose_pdb(text("/r"), text("/c"), true, sibling()), "/r");
    assert_eq!(choose_pdb(None, text("/c"), true, sibling()), "/c");
    assert_eq!(choose_pdb(None, text("/c"), false, sibling()), "/s.pdb");
    assert_eq!(choose_pdb(None, None, false, sibling()), "/s.pdb");
    let locate = |is_file, found| {
        locate_linker_pdb(
            "/a.exe".to_string(),
            "pdb:1-1".to_string(),
            sibling(),
            is_file,
            text(found),
        )
    };
    let split = locate(true, "pdb:1-1").unwrap();
    assert_eq!(split.mechanism(), SplitMechanism::LinkerPdb);
    assert_eq!(split.resolution_image(), "/a.exe");
    assert!(matches!(
        locate(false, "pdb:1-1"),
        Err(DebugSplitError::SymbolFileMissing { path }) if path == "/s.pdb"
    ));
    assert!(matches!(
        locate(true, "pdb:1-2"),
        Err(DebugSplitError::IncompleteSplit { mechanism, reason })
            if mechanism == SplitMechanism::LinkerPdb
                && reason == "the .pdb's build identity does not match the binary"
    ));
    let unknown = locate_linker_pdb(
        "C:\\t\\a.exe".to_string(),
        "pdb:1-1".to_string(),
        sibling(),
        true,
        None,
    );
    assert!(unknown.is_err());
    let split = locate_linker_pdb(
        "C:\\t\\a.exe".to_string(),
        "pdb:1-1".to_string(),
        sibling(),
        true,
        text("pdb:1-1"),
    )
    .unwrap();
    assert_eq!(split.question(0).modules[0].name, "a.exe");
}

#[test]
fn offsets_are_taken_from_the_stripped_binary() {
    let split = gnu_split();
    let file = elf(&symbols(1, 2, &[("main", 0xfff1, 0x40)]));
    assert_eq!(split.function_offset(&file, "main").unwrap(), 0x40);
    assert!(matches!(
        split.function_offset(&file, "other"),
        Err(DebugSplitError::FunctionAddressUnknown { .. })
    ));
    assert!(matches!(
        split.function_offset(b"", "main"),
        Err(DebugSplitError::UnreadableImage { .. })
    ));
}

fn answer(function: Option<&str>, file: Option<&str>, status: ModuleSymbolStatus) -> SymbolReport {
    SymbolReport {
        threads: vec![SymThread {
            frames: vec![SymFrame {
                function: function.map(str::to_string),
                file: Some("a.rs".to_string()),
                line: Some(7),
                status: FrameStatus::Resolved,
                ..Default::default()
            }],
            ..Default::default()
        }],
        modules: vec![ModuleReport {
            status,
            symbol_file: file.map(str::to_string),
            ..Default::default()
        }],
    }
}

#[test]
fn a_resolution_must_come_from_the_pair() {
    let split = gnu_split();
    let question = split.question(0x40);
    assert_eq!(question.modules.len(), 1);
    assert_eq!(question.modules[0].name, "app");
    assert_eq!(question.modules[0].debug_id.as_deref(), Some("elf:07"));
    assert_eq!(
        question.modules[0].path_hint.as_deref(),
        Some("/opt/app.debug")
    );
    assert_eq!(question.threads[0].frames[0].relative_address, 0x40);

    let resolved = ModuleSymbolStatus::Resolved;
    let good = split
        .judge(
            "main",
            0x40,
            &answer(Some("main"), Some("/opt/app.debug"), resolved),
        )
        .unwrap();
    assert_eq!(good.function(), "main");
    assert_eq!(good.module_offset(), 0x40);
    assert_eq!(good.symbol_file(), "/opt/app.debug");
    assert_eq!(good.source_line(), Some(("a.rs", 7)));

    assert!(matches!(
        split.judge("main", 0x40, &answer(Some("main"), Some("/opt/app"), resolved)),
        Err(DebugSplitError::IncompleteSplit { reason, .. }) if reason.contains("/opt/app ")
    ));
    assert!(matches!(
        split.judge("main", 0x40, &answer(Some("main"), None, resolved)),
        Err(DebugSplitError::IncompleteSplit { reason, .. }) if reason.contains("<nothing>")
    ));
    assert!(matches!(
        split.judge("main", 0x40, &answer(Some("other"), Some("/opt/app.debug"), resolved)),
        Err(DebugSplitError::Unresolved { resolved: Some(name), .. }) if name == "other"
    ));
    assert!(matches!(
        split.judge("main", 0x40, &SymbolReport::default()),
        Err(DebugSplitError::Unresolved {
            module_status: ModuleSymbolStatus::NotFound,
            frame_status: FrameStatus::RawOnly,
            resolved: None,
            ..
        })
    ));
}

#[test]
fn a_binary_is_replaced_only_when_everything_is_ready() {
    let plan = GnuPlan::new(
        "/opt/app".to_string(),
        None,
        "objcopy".to_string(),
        "strip".to_string(),
    );
    let mut stage = GnuStage::KeepDebug;
    let mut replaced = false;
    let mut runs = 0;
    while !matches!(stage, GnuStage::Done | GnuStage::Failed) {
        match plan.action(stage) {
            SplitAction::Run { program, arguments } => {
                runs += 1;
                assert!(program == "objcopy" || program == "strip");
                assert!(!arguments.is_empty());
                assert!(!replaced);
            }
            SplitAction::Rename { to, .. } => {
                assert_eq!(to, "/opt/app");
                replaced = true;
            }
            _ => {}
        }
        stage = stage.next(true);
    }
    assert!(matches!(stage, GnuStage::Done));
    assert!(replaced);
    assert_eq!(runs, 3);

    let mut stage = GnuStage::KeepDebug.next(true).next(false);
    while !matches!(stage, GnuStage::Done | GnuStage::Failed) {
        assert!(!matches!(plan.action(stage), SplitAction::Rename { .. }));
        stage = stage.next(true);
    }
    assert!(matches!(stage, GnuStage::Failed));
}

#[test]
fn a_bundle_is_made_before_the_binary_is_stripped() {
    assert!(matches!(DsymStage::Bundle.next(true), DsymStage::Strip));
    assert!(matches!(DsymStage::Bundle.next(false), DsymStage::Failed));
    assert!(matches!(DsymStage::Strip.next(true), DsymStage::Inspect));
    assert!(matches!(DsymStage::Inspect.next(true), DsymStage::Done));
}

#[test]
fn failures_of_a_split_say_what_they_are() {
    let text = |text: &str| text.to_string();
    let said = |error: DebugSplitError| error.message();
    assert_eq!(
        said(DebugSplitError::MechanismUnavailable {
            mechanism: SplitMechanism::GnuDebugLink,
            missing: vec![text("objcopy"), text("llvm-objcopy")],
        }),
        "gnu-debuglink needs objcopy or llvm-objcopy on PATH"
    );
    assert_eq!(
        said(DebugSplitError::UnsupportedTarget),
        "no debug-symbol split mechanism for this target"
    );
    assert_eq!(
        said(DebugSplitError::Tool {
            program: text("strip"),
            status: Some(-1),
            stderr: text("no")
        }),
        format!("strip failed with status {:?}: no", Some(-1))
    );
    assert_eq!(
        said(DebugSplitError::ImageTooLarge {
            path: text("/a"),
            bytes: 12,
            limit: 9
        }),
        "/a is 12 bytes, over the 9-byte inspection limit"
    );
    for resolved in [None, Some("a\"b\n\u{e4}".to_string())] {
        assert_eq!(
            said(DebugSplitError::Unresolved {
                function: text("main"),
                module_offset: 0xdead_beef,
                module_status: ModuleSymbolStatus::Mismatched,
                frame_status: FrameStatus::RawOnly,
                resolved: resolved.clone(),
            }),
            format!(
                "symbolizing main at +{:#x} returned {:?} (module {:?}, frame {:?})",
                0xdead_beef_u64,
                resolved,
                ModuleSymbolStatus::Mismatched,
                FrameStatus::RawOnly
            )
        );
    }
    assert_eq!(
        said(DebugSplitError::Worker(WorkerError::MissingStdin)),
        "symbolizer worker: symbolizer worker started without piped stdin"
    );
    assert_eq!(
        WorkerError::Failed {
            status: None,
            stderr: text("no")
        }
        .message(),
        "symbolizer worker failed with status None: no"
    );
    assert_eq!(
        WorkerError::Spawn {
            executable: text("/w"),
            source: HostError::new(HostErrorKind::NotFound, "gone")
        }
        .message(),
        "cannot start symbolizer worker /w: gone"
    );
}

// ---------------------------------------------------------------------------
// The worker
// ---------------------------------------------------------------------------

#[test]
fn sibling_worker_has_the_platform_executable_suffix() {
    let worker = default_worker_path(None, Ok("/opt/bin/tool".to_string()), false).unwrap();
    assert_eq!(worker, "/opt/bin/kernal-symbolize");
    let beside = |program: &str| default_worker_path(None, Ok(program.to_string()), true).unwrap();
    assert_eq!(
        beside("C:\\bin\\tool.exe"),
        "C:\\bin\\kernal-symbolize.exe"
    );
    assert_eq!(beside("C:tool.exe"), "C:kernal-symbolize.exe");
    assert_eq!(
        beside("\\\\?\\C:\\a\\\\b\\tool.exe"),
        "\\\\?\\C:\\a\\b\\kernal-symbolize.exe"
    );
    assert_eq!(
        beside("\\\\?\\C:\\a/b\\tool.exe"),
        "\\\\?\\C:\\a/b\\kernal-symbolize.exe"
    );
}

#[test]
fn a_configured_worker_comes_first() {
    assert_eq!(SYMBOLIZER_WORKER_ENV, "KERNAL_API_SYMBOLIZER");
    let lost = || Err(HostError::new(HostErrorKind::NotFound, "gone"));
    assert_eq!(
        default_worker_path(Some("/w".to_string()), lost(), false).unwrap(),
        "/w"
    );
    assert!(default_worker_path(None, lost(), false).is_err());
    assert!(matches!(
        SymbolizerWorker::discover(None, lost(), false),
        Err(WorkerError::Io(_))
    ));
    let worker = SymbolizerWorker::discover(Some("/w".to_string()), lost(), false).unwrap();
    assert_eq!(worker.executable(), "/w");
    assert_eq!(SymbolizerWorker::new("/x".to_string()).executable(), "/x");
}

#[test]
fn worker_output_is_read_only_after_success() {
    let report = answer(Some("main"), None, ModuleSymbolStatus::Resolved);
    let bytes = report.encode_wire();
    assert_eq!(
        read_worker_output(true, Some(0), &bytes, b"").unwrap(),
        report
    );
    match read_worker_output(false, Some(3), &bytes, b"broken \xff") {
        Err(WorkerError::Failed { status, stderr }) => {
            assert_eq!(status, Some(3));
            assert_eq!(stderr, "broken \u{fffd}");
        }
        _ => panic!("a worker that failed has no report"),
    }
    let long = vec![b'e'; MAX_WORKER_STDERR_BYTES + 1];
    assert!(matches!(
        read_worker_output(false, None, &[], &long),
        Err(WorkerError::Failed { status: None, stderr }) if stderr.len() == MAX_WORKER_STDERR_BYTES
    ));
    assert!(matches!(
        read_worker_output(true, Some(0), &[0x0a], b""),
        Err(WorkerError::Wire(_))
    ));
}

// ---------------------------------------------------------------------------
// The wire
// ---------------------------------------------------------------------------

#[test]
fn minimal_capture_decodes_with_defaults() {
    let capture = RawCapture::decode_wire(&[]).unwrap();
    assert_eq!(capture.format, CaptureFormat::CooperativeFrames);
    assert!(capture.threads.is_empty());
}

fn sample_capture() -> RawCapture {
    RawCapture {
        modules: vec![ModuleRef {
            name: "_native.pyd".into(),
            base_avma: 0x7fff_0000,
            debug_id: Some("ABCD".into()),
            ..Default::default()
        }],
        threads: vec![RawThread {
            os_tid: 42,
            name: Some("worker".into()),
            frames: vec![RawFrame {
                module_index: 0,
                relative_address: 0x1234,
            }],
            py_frames: vec![PyFrame {
                file: "t.py".into(),
                line: 9,
                func: "main".into(),
            }],
        }],
        ..Default::default()
    }
}

#[test]
fn capture_round_trips_through_protobuf() {
    let capture = sample_capture();
    assert_eq!(
        RawCapture::decode_wire(&capture.encode_wire()).unwrap(),
        capture
    );
}

#[test]
fn the_encoding_is_the_protobuf_one() {
    let capture = RawCapture {
        threads: vec![RawThread {
            os_tid: 300,
            ..Default::default()
        }],
        ..Default::default()
    };
    assert_eq!(
        capture.encode_wire(),
        [0x12, 0x00, 0x22, 0x03, 0x08, 0xac, 0x02]
    );
}

#[test]
fn reports_round_trip_with_everything_set() {
    let report = SymbolReport {
        threads: vec![SymThread {
            os_tid: u64::MAX,
            name: Some(String::new()),
            frames: vec![SymFrame {
                module: "m\u{e4}".to_string(),
                relative_address: 1 << 63,
                function: Some("f".to_string()),
                file: None,
                line: Some(0),
                inline_frames: vec![InlineFrame {
                    function: "g".to_string(),
                    file: Some("g.rs".to_string()),
                    line: Some(u32::MAX),
                }],
                status: FrameStatus::ModuleUnknown,
            }],
            py_frames: Vec::new(),
        }],
        modules: vec![ModuleReport {
            name: "m".to_string(),
            status: ModuleSymbolStatus::Mismatched,
            symbol_file: Some("m.debug".to_string()),
            symbol_source: Some(DiscoverySource::Embedded),
            rejected_candidates: 5,
        }],
    };
    assert_eq!(
        SymbolReport::decode_wire(&report.encode_wire()).unwrap(),
        report
    );
}

fn varint(tag: u32, value: u64) -> Field {
    Field {
        tag,
        value: FieldValue::Varint(value),
    }
}

fn message(tag: u32, fields: &Vec<Field>) -> Field {
    Field {
        tag,
        value: FieldValue::Bytes(encode_fields(fields)),
    }
}

#[test]
fn unknown_enum_values_degrade_without_fabricating_status() {
    let frame = message(3, &vec![varint(7, 999)]);
    let thread = message(1, &vec![frame]);
    let module = message(2, &vec![varint(2, 999), varint(4, 999)]);
    let report = SymbolReport::decode_wire(&encode_fields(&vec![thread, module])).unwrap();
    assert_eq!(report.threads[0].frames[0].status, FrameStatus::RawOnly);
    assert_eq!(report.modules[0].status, ModuleSymbolStatus::NotFound);
    assert_eq!(report.modules[0].symbol_source, None);
}

#[test]
fn fields_of_later_releases_are_ignored() {
    let capture = sample_capture();
    let mut bytes = capture.encode_wire();
    bytes.extend(encode_fields(&vec![
        varint(100, 1),
        message(101, &Vec::new()),
    ]));
    // A 64-bit, a 32-bit and a grouped field.
    bytes.extend([0x91, 0x07, 1, 2, 3, 4, 5, 6, 7, 8]);
    bytes.extend([0x95, 0x07, 1, 2, 3, 4]);
    bytes.extend([0x93, 0x07, 0x08, 0x01, 0x94, 0x07]);
    assert_eq!(RawCapture::decode_wire(&bytes).unwrap(), capture);
}

#[test]
fn damaged_payloads_are_refused() {
    let fault = |bytes: &[u8]| RawCapture::decode_wire(bytes).unwrap_err().fault();
    assert_eq!(fault(&[0x08, 0x80]), WireFault::InvalidVarint);
    assert_eq!(fault(&[0x00]), WireFault::InvalidTag);
    assert_eq!(fault(&[0x0f]), WireFault::InvalidWireType { value: 7 });
    assert_eq!(fault(&[0x22, 0x05, 0x00]), WireFault::BufferUnderflow);
    assert_eq!(
        fault(&[0x0a, 0x00]),
        WireFault::UnexpectedWireType {
            actual: 2,
            expected: 0
        }
    );
    // The value is read by what is declared, before the message's own end is looked at.
    assert_eq!(
        fault(&[0x1a, 0x01, 0x0a, 0x00]),
        WireFault::DelimitedLengthExceeded
    );
    assert_eq!(fault(&[0x94, 0x07]), WireFault::UnexpectedEndGroupTag);
    assert_eq!(
        fault(&[0x1a, 0x03, 0x0a, 0x01, 0xff]),
        WireFault::InvalidString
    );
    assert_eq!(
        fault(&[0xff, 0xff, 0xff, 0xff, 0xff, 0x01]),
        WireFault::InvalidKey { key: 0xf_ffff_ffff }
    );
    let deep: Vec<u8> = [0x93, 0x07].repeat(101);
    assert_eq!(fault(&deep), WireFault::RecursionLimitReached);
    let error = RawCapture::decode_wire(&[0x00]).unwrap_err();
    assert!(error.message().contains(&error.fault().description()));
    let error = RawCapture::decode_wire(&[0x22, 0x04, 0x1a, 0x02, 0x0a, 0x00]).unwrap_err();
    assert_eq!(
        error.message(),
        "invalid kernal-api symbolization protobuf: failed to decode Protobuf message: \
         RawFrame.module_index: RawThread.frames: RawCapture.threads: \
         invalid wire type: LengthDelimited (expected Varint)"
    );
}

#[test]
fn numbers_are_coded_as_the_protobuf_crate_does() {
    for value in [0, 1, 127, 128, 300, u64::from(u32::MAX), u64::MAX] {
        let bytes = encode_fields(&vec![varint(1, value)]);
        let mut expected = vec![0x08];
        prost::encoding::encode_varint(value, &mut expected);
        assert_eq!(bytes, expected);
        let (field, rest) = take_field(&bytes, 1).unwrap();
        assert_eq!(field.tag, 1);
        assert!(matches!(field.value, FieldValue::Varint(found) if found == value));
        assert!(rest.is_empty());
    }
}
