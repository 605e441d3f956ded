//! What an object file says of itself, as plain values.
//!
//! Every question is put to the bytes of the file. Bytes that are no object file
//! answer each of them with nothing.
use object::read::coff::ImageSymbol as _;
use object::{Object as _, ObjectSymbol as _};
use vstd::prelude::*;

use crate::strings::{
    decimal, decimal_text, hex, hex_of, join2, lemma_decimal_injective, lemma_hex_injective,
    same_text,
};
use vstd::string::StringExecFns;

verus! {

/// The record by which a PE image names its PDB.
#[derive(Clone, Debug)]
pub struct PdbInfo {
    pub guid: Vec<u8>,
    pub age: u32,
    pub path: Vec<u8>,
}

/// One entry of the symbol table.
#[derive(Clone, Debug)]
pub struct ImageName {
    /// Nothing where the table holds no readable name.
    pub name: Option<String>,
    pub undefined: bool,
}

/// One dynamic linking symbol.
#[derive(Clone, Debug)]
pub struct ImageSymbol {
    /// Nothing where the table holds no readable name.
    pub name: Option<String>,
    pub undefined: bool,
    pub address: u64,
}

/// One exported name.
#[derive(Clone, Debug)]
pub struct ImageExport {
    pub name: Vec<u8>,
    pub address: u64,
}

pub open spec fn optional_bytes(bytes: Option<Vec<u8>>) -> Option<Seq<u8>> {
    match bytes {
        None => None,
        Some(bytes) => Some(bytes@),
    }
}

pub open spec fn pdb_model(info: Option<PdbInfo>) -> Option<(Seq<u8>, u32, Seq<u8>)> {
    match info {
        None => None,
        Some(info) => Some((info.guid@, info.age, info.path@)),
    }
}

pub open spec fn link_model(link: Option<(Vec<u8>, u32)>) -> Option<(Seq<u8>, u32)> {
    match link {
        None => None,
        Some(link) => Some((link.0@, link.1)),
    }
}

pub open spec fn name_model(entry: ImageName) -> (Option<Seq<char>>, bool) {
    (
        match entry.name {
            None => None,
            Some(name) => Some(name@),
        },
        entry.undefined,
    )
}

pub open spec fn name_models(entries: Seq<ImageName>) -> Seq<(Option<Seq<char>>, bool)> {
    entries.map_values(|entry: ImageName| name_model(entry))
}

pub open spec fn symbol_model(symbol: ImageSymbol) -> (Option<Seq<char>>, bool, u64) {
    (
        match symbol.name {
            None => None,
            Some(name) => Some(name@),
        },
        symbol.undefined,
        symbol.address,
    )
}

pub open spec fn symbol_models(symbols: Seq<ImageSymbol>) -> Seq<(Option<Seq<char>>, bool, u64)> {
    symbols.map_values(|symbol: ImageSymbol| symbol_model(symbol))
}

pub open spec fn export_models(exports: Seq<ImageExport>) -> Seq<(Seq<u8>, u64)> {
    exports.map_values(|export: ImageExport| (export.name@, export.address))
}

// ---------------------------------------------------------------------------
// Questions that the `object` crate answers
// ---------------------------------------------------------------------------

/// Why `object` cannot read the bytes, or `None` where it can.
pub uninterp spec fn object_fault(bytes: Seq<u8>) -> Option<Seq<char>>;

/// The build identifier in the notes of an ELF file.
pub uninterp spec fn object_build_id(bytes: Seq<u8>) -> Option<Seq<u8>>;

/// The identifier in the load commands of a Mach-O file.
pub uninterp spec fn object_mach_uuid(bytes: Seq<u8>) -> Option<Seq<u8>>;

/// The CodeView record of a PE file: identifier, age and path.
pub uninterp spec fn object_pdb_info(bytes: Seq<u8>) -> Option<(Seq<u8>, u32, Seq<u8>)>;

/// The name and checksum in the `.gnu_debuglink` section of an ELF file.
pub uninterp spec fn object_debuglink(bytes: Seq<u8>) -> Option<(Seq<u8>, u32)>;

/// Whether a section of that name is there.
pub uninterp spec fn object_has_section(bytes: Seq<u8>, name: Seq<char>) -> bool;

/// The address that relative addresses count from.
pub uninterp spec fn object_address_base(bytes: Seq<u8>) -> u64;

/// The symbol table: name and whether undefined.
pub uninterp spec fn object_symbols(bytes: Seq<u8>) -> Seq<(Option<Seq<char>>, bool)>;

/// The address of the symbol of that number in the symbol table.
pub uninterp spec fn object_symbol_address(bytes: Seq<u8>, index: nat) -> u64;

/// Where the symbol of that number lies in a 64-bit PE image, counted from its base, if it
/// has a place.
pub uninterp spec fn object_symbol_reach(bytes: Seq<u8>, index: nat) -> Option<u64>;

/// The dynamic linking symbols: name, whether undefined, address.
pub uninterp spec fn object_dynamic_symbols(bytes: Seq<u8>) -> Seq<(Option<Seq<char>>, bool, u64)>;

/// The exported names and their addresses.
pub uninterp spec fn object_exports(bytes: Seq<u8>) -> Seq<(Seq<u8>, u64)>;

/// `object::File::parse`: whether the bytes are an object file, and if not, the
/// parser's own words.
#[verifier::external_body]
pub(crate) fn parse_image(bytes: &[u8]) -> (parsed: Result<(), String>)
    ensures
        match parsed {
            Ok(()) => object_fault(bytes@) is None,
            Err(reason) => object_fault(bytes@) == Some(reason@),
        },
{
    match object::File::parse(bytes) {
        Ok(_) => Ok(()),
        Err(error) => Err(error.to_string()),
    }
}

/// `object::Object::build_id`: the identifier, where there is one that can be
/// read.
#[verifier::external_body]
fn image_build_id(bytes: &[u8]) -> (id: Option<Vec<u8>>)
    ensures
        optional_bytes(id) == object_build_id(bytes@),
{
    let file = object::File::parse(bytes).ok()?;
    match file.build_id() {
        Ok(Some(id)) => Some(id.to_vec()),
        Ok(None) => None,
        Err(_) => None,
    }
}

/// `object::Object::mach_uuid`: the identifier, where there is one that can be
/// read.
#[verifier::external_body]
fn image_mach_uuid(bytes: &[u8]) -> (uuid: Option<Vec<u8>>)
    ensures
        optional_bytes(uuid) == object_mach_uuid(bytes@),
{
    let file = object::File::parse(bytes).ok()?;
    match file.mach_uuid() {
        Ok(Some(uuid)) => Some(uuid.to_vec()),
        Ok(None) => None,
        Err(_) => None,
    }
}

/// `object::Object::pdb_info`: the CodeView record, where there is one that can
/// be read. Its identifier has sixteen bytes.
#[verifier::external_body]
pub(crate) fn image_pdb_info(bytes: &[u8]) -> (info: Option<PdbInfo>)
    ensures
        pdb_model(info) == object_pdb_info(bytes@),
        info is Some ==> info->Some_0.guid@.len() == 16,
{
    let file = object::File::parse(bytes).ok()?;
    match file.pdb_info() {
        Ok(Some(info)) => Some(
            PdbInfo { guid: info.guid().to_vec(), age: info.age(), path: info.path().to_vec() },
        ),
        Ok(None) => None,
        Err(_) => None,
    }
}

/// `object::Object::gnu_debuglink`: the recorded name and checksum, where there
/// is a section that can be read.
#[verifier::external_body]
pub(crate) fn image_debuglink(bytes: &[u8]) -> (link: Option<(Vec<u8>, u32)>)
    ensures
        link_model(link) == object_debuglink(bytes@),
{
    let file = object::File::parse(bytes).ok()?;
    match file.gnu_debuglink() {
        Ok(Some((name, crc))) => Some((name.to_vec(), crc)),
        Ok(None) => None,
        Err(_) => None,
    }
}

/// `object::Object::section_by_name`: whether it finds a section.
#[verifier::external_body]
fn image_has_section(bytes: &[u8], name: &str) -> (has: bool)
    ensures
        has == object_has_section(bytes@, name@),
{
    match object::File::parse(bytes) {
        Ok(file) => file.section_by_name(name).is_some(),
        Err(_) => false,
    }
}

/// `object::Object::relative_address_base`.
#[verifier::external_body]
fn image_address_base(bytes: &[u8]) -> (base: u64)
    ensures
        base == object_address_base(bytes@),
{
    match object::File::parse(bytes) {
        Ok(file) => file.relative_address_base(),
        Err(_) => 0,
    }
}

/// `object::Object::symbols`: the names of its items in order, and which of them are
/// undefined.
#[verifier::external_body]
fn image_symbols(bytes: &[u8]) -> (symbols: Vec<ImageName>)
    ensures
        name_models(symbols@) == object_symbols(bytes@),
{
    match object::File::parse(bytes) {
        Ok(file) => file.symbols().map(
            |symbol| ImageName {
                name: symbol.name().ok().map(str::to_owned),
                undefined: symbol.is_undefined(),
            },
        ).collect(),
        Err(_) => Vec::new(),
    }
}

/// The highest base from which every address of a symbol table can be counted: a
/// symbol lies in a section, and both are placed by 32-bit numbers.
pub const HIGHEST_BASE: u64 = 0xffff_fffe_0000_0001;

/// `object::ObjectSymbol::address` of the symbol of that number. A PE symbol's
/// address is the sum of the base, its section's place and its own, which does not
/// overflow up to [`HIGHEST_BASE`]; [`image_symbol_reach`] is for images above it.
#[verifier::external_body]
fn image_symbol_address(bytes: &[u8], index: usize) -> (address: u64)
    requires
        index < object_symbols(bytes@).len(),
        object_address_base(bytes@) <= HIGHEST_BASE,
    ensures
        address == object_symbol_address(bytes@, index as nat),
{
    match object::File::parse(bytes) {
        Ok(file) => file.symbols().nth(index).map_or(0, |symbol| symbol.address()),
        Err(_) => 0,
    }
}

/// `object::read::coff::ImageSymbol::address` of the symbol of that number in a 64-bit PE
/// image, counted from zero, where it has an address.
#[verifier::external_body]
fn image_symbol_reach(bytes: &[u8], index: usize) -> (reach: Option<u64>)
    requires
        index < object_symbols(bytes@).len(),
    ensures
        reach == object_symbol_reach(bytes@, index as nat),
{
    match object::File::parse(bytes) {
        Ok(object::File::Pe64(file)) => {
            let symbol = file.symbols().nth(index)?;
            symbol.coff_symbol().address(0, &file.section_table()).ok()?
        },
        _ => None,
    }
}

/// `object::Object::dynamic_symbols`: its items in order.
#[verifier::external_body]
fn image_dynamic_symbols(bytes: &[u8]) -> (symbols: Vec<ImageSymbol>)
    ensures
        symbol_models(symbols@) == object_dynamic_symbols(bytes@),
{
    match object::File::parse(bytes) {
        Ok(file) => file.dynamic_symbols().map(
            |symbol| ImageSymbol {
                name: symbol.name().ok().map(str::to_owned),
                undefined: symbol.is_undefined(),
                address: symbol.address(),
            },
        ).collect(),
        Err(_) => Vec::new(),
    }
}

/// `object::Object::exports`: its items in order, or none where the export
/// table cannot be read.
#[verifier::external_body]
fn image_exports(bytes: &[u8]) -> (exports: Vec<ImageExport>)
    ensures
        export_models(exports@) == object_exports(bytes@),
{
    match object::File::parse(bytes).and_then(|file| file.exports()) {
        Ok(exports) => exports.iter().map(
            |export| ImageExport { name: export.name().to_vec(), address: export.address() },
        ).collect(),
        Err(_) => Vec::new(),
    }
}

// ---------------------------------------------------------------------------
// Identity
// ---------------------------------------------------------------------------

/// An identifier with its first three fields in the order that people write:
/// the image stores a 32-bit and two 16-bit fields with the low byte first.
pub open spec fn written_guid(guid: Seq<u8>) -> Seq<u8> {
    seq![guid[3], guid[2], guid[1], guid[0], guid[5], guid[4], guid[7], guid[6]] + guid.skip(8)
}

/// The one spelling of an identity: an ELF build identifier comes before a
/// Mach-O one, and that before a PDB record.
pub open spec fn identity_text(
    build_id: Option<Seq<u8>>,
    uuid: Option<Seq<u8>>,
    pdb: Option<(Seq<u8>, u32, Seq<u8>)>,
) -> Option<Seq<char>> {
    match (build_id, uuid, pdb) {
        (Some(id), _, _) => Some("elf:"@ + hex_of(id)),
        (None, Some(uuid), _) => Some("macho:"@ + hex_of(uuid)),
        (None, None, Some((guid, age, path))) => Some(
            "pdb:"@ + hex_of(written_guid(guid)) + "-"@ + decimal(age as nat),
        ),
        (None, None, None) => None,
    }
}

/// What an identity is made of: the first of the three that is there.
pub enum IdentityModel {
    BuildId(Seq<u8>),
    Uuid(Seq<u8>),
    Pdb { guid: Seq<u8>, age: u32 },
}

pub open spec fn identity_source(
    build_id: Option<Seq<u8>>,
    uuid: Option<Seq<u8>>,
    pdb: Option<(Seq<u8>, u32, Seq<u8>)>,
) -> Option<IdentityModel> {
    match (build_id, uuid, pdb) {
        (Some(id), _, _) => Some(IdentityModel::BuildId(id)),
        (None, Some(uuid), _) => Some(IdentityModel::Uuid(uuid)),
        (None, None, Some((guid, age, path))) => Some(IdentityModel::Pdb { guid, age }),
        (None, None, None) => None,
    }
}

/// Two images are given the same identity only if they carry the same identifier
/// of the same format; the path in a PDB record plays no part.
pub proof fn identities_are_told_apart(
    first: (Option<Seq<u8>>, Option<Seq<u8>>, Option<(Seq<u8>, u32, Seq<u8>)>),
    second: (Option<Seq<u8>>, Option<Seq<u8>>, Option<(Seq<u8>, u32, Seq<u8>)>),
)
    requires
        first.2 is Some ==> first.2->Some_0.0.len() == 16,
        second.2 is Some ==> second.2->Some_0.0.len() == 16,
        identity_text(first.0, first.1, first.2) == identity_text(second.0, second.1, second.2),
    ensures
        identity_source(first.0, first.1, first.2) == identity_source(
            second.0,
            second.1,
            second.2,
        ),
{
    reveal_strlit("elf:");
    reveal_strlit("macho:");
    reveal_strlit("pdb:");
    reveal_strlit("-");
    match (
        identity_source(first.0, first.1, first.2),
        identity_source(second.0, second.1, second.2),
    ) {
        (Some(a), Some(b)) => {
            let ta = identity_text(first.0, first.1, first.2)->Some_0;
            let tb = identity_text(second.0, second.1, second.2)->Some_0;
            assert(ta[0] == tb[0]);
            match (a, b) {
                (IdentityModel::BuildId(x), IdentityModel::BuildId(y)) => {
                    assert(ta.skip(4) =~= hex_of(x));
                    assert(tb.skip(4) =~= hex_of(y));
                    lemma_hex_injective(x, y);
                },
                (IdentityModel::Uuid(x), IdentityModel::Uuid(y)) => {
                    assert(ta.skip(6) =~= hex_of(x));
                    assert(tb.skip(6) =~= hex_of(y));
                    lemma_hex_injective(x, y);
                },
                (
                    IdentityModel::Pdb { guid: x, age: m },
                    IdentityModel::Pdb { guid: y, age: n },
                ) => {
                    assert(ta.subrange(4, 36) =~= hex_of(written_guid(x)));
                    assert(tb.subrange(4, 36) =~= hex_of(written_guid(y)));
                    lemma_hex_injective(written_guid(x), written_guid(y));
                    lemma_guid_injective(x, y);
                    assert(ta.skip(37) =~= decimal(m as nat));
                    assert(tb.skip(37) =~= decimal(n as nat));
                    lemma_decimal_injective(m as nat, n as nat);
                },
                _ => {},
            }
        },
        _ => {},
    }
}

proof fn lemma_guid_injective(first: Seq<u8>, second: Seq<u8>)
    requires
        first.len() == 16,
        second.len() == 16,
        written_guid(first) == written_guid(second),
    ensures
        first == second,
{
    let a = written_guid(first);
    let b = written_guid(second);
    assert(a[0] == b[0] && a[1] == b[1] && a[2] == b[2] && a[3] == b[3]);
    assert(a[4] == b[4] && a[5] == b[5] && a[6] == b[6] && a[7] == b[7]);
    assert forall|i: int| 8 <= i < 16 implies first[i] == second[i] by {
        assert(a[i] == first[i] && b[i] == second[i]);
    }
    assert(first =~= second);
}

/// The identity of an object file.
pub open spec fn image_identity(bytes: Seq<u8>) -> Option<Seq<char>> {
    identity_text(object_build_id(bytes), object_mach_uuid(bytes), object_pdb_info(bytes))
}

/// Spells an identity out of what an image carries.
pub fn spell_identity(
    build_id: &Option<Vec<u8>>,
    uuid: &Option<Vec<u8>>,
    pdb: &Option<PdbInfo>,
) -> (identity: Option<String>)
    requires
        *pdb is Some ==> pdb->Some_0.guid@.len() == 16,
    ensures
        match identity {
            Some(identity) => identity_text(
                optional_bytes(*build_id),
                optional_bytes(*uuid),
                pdb_model(*pdb),
            ) == Some(identity@),
            None => *build_id is None && *uuid is None && *pdb is None,
        },
{
    if let Some(id) = build_id {
        return Some(join2("elf:", hex(id.as_slice()).as_str()));
    }
    if let Some(uuid) = uuid {
        return Some(join2("macho:", hex(uuid.as_slice()).as_str()));
    }
    match pdb {
        None => None,
        Some(info) => {
            let guid = &info.guid;
            let mut written: Vec<u8> = Vec::new();
            written.push(guid[3]);
            written.push(guid[2]);
            written.push(guid[1]);
            written.push(guid[0]);
            written.push(guid[5]);
            written.push(guid[4]);
            written.push(guid[7]);
            written.push(guid[6]);
            for at in 8..guid.len()
                invariant
                    guid@.len() == 16,
                    written@ == written_guid(guid@).take(at as int),
            {
                written.push(guid[at]);
                assert(written@ =~= written_guid(guid@).take(at + 1));
            }
            assert(written@ =~= written_guid(guid@));
            let mut text = join2("pdb:", hex(written.as_slice()).as_str());
            text.append("-");
            text.append(decimal_text(info.age as u64).as_str());
            Some(text)
        },
    }
}

/// The identity that an object file carries, if any.
pub fn identity_of(bytes: &[u8]) -> (identity: Option<String>)
    ensures
        match identity {
            Some(identity) => image_identity(bytes@) == Some(identity@),
            None => image_identity(bytes@) is None,
        },
{
    let build_id = image_build_id(bytes);
    let uuid = image_mach_uuid(bytes);
    let pdb = image_pdb_info(bytes);
    spell_identity(&build_id, &uuid, &pdb)
}

/// Whether a file carries DWARF, under its ELF or its Mach-O name.
pub open spec fn image_has_debug_info(bytes: Seq<u8>) -> bool {
    object_has_section(bytes, ".debug_info"@) || object_has_section(bytes, "__debug_info"@)
}

pub fn has_debug_info(bytes: &[u8]) -> (has: bool)
    ensures
        has == image_has_debug_info(bytes@),
{
    image_has_section(bytes, ".debug_info") || image_has_section(bytes, "__debug_info")
}

// ---------------------------------------------------------------------------
// Addresses
// ---------------------------------------------------------------------------

/// The number of the first defined symbol of that name.
pub open spec fn symbol_number(
    symbols: Seq<(Option<Seq<char>>, bool)>,
    name: Seq<char>,
) -> Option<nat>
    decreases symbols.len(),
{
    if symbols.len() == 0 {
        None
    } else if !symbols[0].1 && symbols[0].0 == Some(name) {
        Some(0)
    } else {
        match symbol_number(symbols.drop_first(), name) {
            Some(number) => Some(number + 1),
            None => None,
        }
    }
}

/// The address of the first defined symbol of that name.
pub open spec fn symbol_address(
    symbols: Seq<(Option<Seq<char>>, bool, u64)>,
    name: Seq<char>,
) -> Option<u64>
    decreases symbols.len(),
{
    if symbols.len() == 0 {
        None
    } else if !symbols[0].1 && symbols[0].0 == Some(name) {
        Some(symbols[0].2)
    } else {
        symbol_address(symbols.drop_first(), name)
    }
}

/// The address of the first export of that name.
pub open spec fn export_address(exports: Seq<(Seq<u8>, u64)>, name: Seq<u8>) -> Option<u64>
    decreases exports.len(),
{
    if exports.len() == 0 {
        None
    } else if exports[0].0 == name {
        Some(exports[0].1)
    } else {
        export_address(exports.drop_first(), name)
    }
}

/// The offset of a function: the address that the symbol table, the dynamic
/// symbols or the exports give it, in this order, counted from the base.
pub open spec fn offset_of(
    listed: Option<u64>,
    dynamic: Seq<(Option<Seq<char>>, bool, u64)>,
    exports: Seq<(Seq<u8>, u64)>,
    base: u64,
    name: Seq<char>,
) -> Option<u64> {
    let address = match listed {
        Some(address) => Some(address),
        None => match symbol_address(dynamic, name) {
            Some(address) => Some(address),
            None => export_address(exports, vstd::utf8::encode_utf8(name)),
        },
    };
    match address {
        Some(address) => if address >= base { Some((address - base) as u64) } else { None },
        None => None,
    }
}

/// An address that lies so far from a base, or zero where there is none. One that runs
/// over comes out below the base.
pub open spec fn address_at(base: u64, reach: Option<u64>) -> u64 {
    match reach {
        Some(reach) => ((base + reach) % 0x1_0000_0000_0000_0000) as u64,
        None => 0,
    }
}

/// The address that the symbol table gives a function.
pub open spec fn image_listed(bytes: Seq<u8>, name: Seq<char>) -> Option<u64> {
    let base = object_address_base(bytes);
    match symbol_number(object_symbols(bytes), name) {
        Some(number) => Some(
            if base <= HIGHEST_BASE {
                object_symbol_address(bytes, number)
            } else {
                address_at(base, object_symbol_reach(bytes, number))
            },
        ),
        None => None,
    }
}

/// The offset of a function in an object file.
pub open spec fn image_offset(bytes: Seq<u8>, name: Seq<char>) -> Option<u64> {
    offset_of(
        image_listed(bytes, name),
        object_dynamic_symbols(bytes),
        object_exports(bytes),
        object_address_base(bytes),
        name,
    )
}

/// Looks a function up in a symbol table.
pub fn find_symbol(symbols: &Vec<ImageName>, name: &str) -> (number: Option<usize>)
    ensures
        match number {
            Some(number) => symbol_number(name_models(symbols@), name@) == Some(number as nat)
                && number < symbols@.len(),
            None => symbol_number(name_models(symbols@), name@) is None,
        },
{
    let ghost all = name_models(symbols@);
    assert(all.skip(0) =~= all);
    for at in 0..symbols.len()
        invariant
            all == name_models(symbols@),
            symbol_number(all, name@) == match symbol_number(all.skip(at as int), name@) {
                Some(number) => Some(number + at as nat),
                None => None,
            },
    {
        let symbol = &symbols[at];
        assert(all.skip(at as int)[0] == name_model(symbols@[at as int]));
        if !symbol.undefined {
            if let Some(found) = &symbol.name {
                if same_text(found.as_str(), name) {
                    return Some(at);
                }
            }
        }
        assert(all.skip(at as int).drop_first() =~= all.skip(at + 1));
    }
    None
}

fn find_dynamic(symbols: &Vec<ImageSymbol>, name: &str) -> (address: Option<u64>)
    ensures
        address == symbol_address(symbol_models(symbols@), name@),
{
    let ghost all = symbol_models(symbols@);
    assert(all.skip(0) =~= all);
    for at in 0..symbols.len()
        invariant
            all == symbol_models(symbols@),
            symbol_address(all, name@) == symbol_address(all.skip(at as int), name@),
    {
        let symbol = &symbols[at];
        assert(all.skip(at as int)[0] == symbol_model(symbols@[at as int]));
        if !symbol.undefined {
            if let Some(found) = &symbol.name {
                if same_text(found.as_str(), name) {
                    return Some(symbol.address);
                }
            }
        }
        assert(all.skip(at as int).drop_first() =~= all.skip(at + 1));
    }
    None
}

fn same_bytes(first: &[u8], second: &[u8]) -> (same: bool)
    ensures
        same == (first@ == second@),
{
    if first.len() != second.len() {
        return false;
    }
    for at in 0..first.len()
        invariant
            first@.len() == second@.len(),
            first@.take(at as int) =~= second@.take(at as int),
    {
        if first[at] != second[at] {
            assert(first@[at as int] != second@[at as int]);
            return false;
        }
        assert(first@.take(at + 1) =~= first@.take(at as int).push(first@[at as int]));
        assert(second@.take(at + 1) =~= second@.take(at as int).push(second@[at as int]));
    }
    assert(first@.take(first@.len() as int) =~= first@);
    assert(second@.take(second@.len() as int) =~= second@);
    true
}

fn find_export(exports: &Vec<ImageExport>, name: &[u8]) -> (address: Option<u64>)
    ensures
        address == export_address(export_models(exports@), name@),
{
    let ghost all = export_models(exports@);
    assert(all.skip(0) =~= all);
    for at in 0..exports.len()
        invariant
            all == export_models(exports@),
            export_address(all, name@) == export_address(all.skip(at as int), name@),
    {
        let export = &exports[at];
        assert(all.skip(at as int)[0] == (exports@[at as int].name@, exports@[at as int].address));
        if same_bytes(export.name.as_slice(), name) {
            return Some(export.address);
        }
        assert(all.skip(at as int).drop_first() =~= all.skip(at + 1));
    }
    None
}

/// The offset of a function, given the address that the symbol table has for it and
/// the other tables of its image.
pub fn choose_offset(
    listed: Option<u64>,
    dynamic: &Vec<ImageSymbol>,
    exports: &Vec<ImageExport>,
    base: u64,
    name: &str,
) -> (offset: Option<u64>)
    ensures
        offset == offset_of(
            listed,
            symbol_models(dynamic@),
            export_models(exports@),
            base,
            name@,
        ),
{
    let mut address = listed;
    if address.is_none() {
        address = find_dynamic(dynamic, name);
    }
    if address.is_none() {
        address = find_export(exports, name.as_bytes());
    }
    match address {
        Some(address) => if address >= base { Some(address - base) } else { None },
        None => None,
    }
}

/// Counts an address from a base.
pub fn place_address(base: u64, reach: Option<u64>) -> (address: u64)
    ensures
        address == address_at(base, reach),
{
    match reach {
        Some(reach) => if reach > u64::MAX - base {
            reach - (u64::MAX - base) - 1
        } else {
            base + reach
        },
        None => 0,
    }
}

/// Looks a function up in an object file.
pub fn find_offset(bytes: &[u8], name: &str) -> (offset: Option<u64>)
    ensures
        offset == image_offset(bytes@, name@),
{
    let base = image_address_base(bytes);
    let mut listed: Option<u64> = None;
    let symbols = image_symbols(bytes);
    if let Some(number) = find_symbol(&symbols, name) {
        assert(number < object_symbols(bytes@).len());
        listed = Some(
            if base <= HIGHEST_BASE {
                image_symbol_address(bytes, number)
            } else {
                place_address(base, image_symbol_reach(bytes, number))
            },
        );
    }
    let dynamic = image_dynamic_symbols(bytes);
    let exports = image_exports(bytes);
    choose_offset(listed, &dynamic, &exports, base, name)
}

// ---------------------------------------------------------------------------
// What a lookup finds
// ---------------------------------------------------------------------------

/// A lookup finds the first defined symbol of the name, and nothing only if there is none.
pub proof fn the_first_defined_symbol_is_found(
    symbols: Seq<(Option<Seq<char>>, bool)>,
    name: Seq<char>,
)
    ensures
        match symbol_number(symbols, name) {
            Some(number) => {
                &&& number < symbols.len()
                &&& symbols[number as int] == (Some(name), false)
                &&& forall|i: int| 0 <= i < number ==> #[trigger] symbols[i] != (Some(name), false)
            },
            None => forall|i: int|
                0 <= i < symbols.len() ==> #[trigger] symbols[i] != (Some(name), false),
        },
    decreases symbols.len(),
{
    if symbols.len() > 0 && !(!symbols[0].1 && symbols[0].0 == Some(name)) {
        let rest = symbols.drop_first();
        the_first_defined_symbol_is_found(rest, name);
        assert forall|i: int| 1 <= i < symbols.len() implies rest[i - 1] == #[trigger] symbols[i] by {
        }
    }
}

/// The same of the dynamic symbols, whose address is handed out.
pub proof fn the_first_dynamic_symbol_is_found(
    symbols: Seq<(Option<Seq<char>>, bool, u64)>,
    name: Seq<char>,
)
    ensures
        match symbol_address(symbols, name) {
            Some(address) => exists|at: int|
                {
                    &&& 0 <= at < symbols.len()
                    &&& #[trigger] symbols[at] == (Some(name), false, address)
                    &&& forall|i: int|
                        0 <= i < at ==> (#[trigger] symbols[i]).1 || symbols[i].0 != Some(name)
                },
            None => forall|i: int|
                0 <= i < symbols.len() ==> (#[trigger] symbols[i]).1 || symbols[i].0 != Some(name),
        },
    decreases symbols.len(),
{
    if symbols.len() > 0 {
        if !symbols[0].1 && symbols[0].0 == Some(name) {
            assert(symbols[0] == (Some(name), false, symbol_address(symbols, name)->Some_0));
        } else {
            let rest = symbols.drop_first();
            the_first_dynamic_symbol_is_found(rest, name);
            assert forall|i: int| 1 <= i < symbols.len() implies rest[i - 1]
                == #[trigger] symbols[i] by {}
            if let Some(address) = symbol_address(rest, name) {
                let at = choose|at: int|
                    {
                        &&& 0 <= at < rest.len()
                        &&& #[trigger] rest[at] == (Some(name), false, address)
                        &&& forall|i: int|
                            0 <= i < at ==> (#[trigger] rest[i]).1 || rest[i].0 != Some(name)
                    };
                assert(symbols[at + 1] == (Some(name), false, address));
                assert forall|i: int| 0 <= i < at + 1 implies (#[trigger] symbols[i]).1
                    || symbols[i].0 != Some(name) by {
                    if i > 0 {
                        assert(rest[i - 1].1 || rest[i - 1].0 != Some(name));
                    }
                }
            }
        }
    }
}

/// And of the exports.
pub proof fn the_first_export_is_found(exports: Seq<(Seq<u8>, u64)>, name: Seq<u8>)
    ensures
        match export_address(exports, name) {
            Some(address) => exists|at: int|
                {
                    &&& 0 <= at < exports.len()
                    &&& #[trigger] exports[at] == (name, address)
                    &&& forall|i: int| 0 <= i < at ==> (#[trigger] exports[i]).0 != name
                },
            None => forall|i: int| 0 <= i < exports.len() ==> (#[trigger] exports[i]).0 != name,
        },
    decreases exports.len(),
{
    if exports.len() > 0 {
        if exports[0].0 == name {
            assert(exports[0] == (name, export_address(exports, name)->Some_0));
        } else {
            let rest = exports.drop_first();
            the_first_export_is_found(rest, name);
            assert forall|i: int| 1 <= i < exports.len() implies rest[i - 1]
                == #[trigger] exports[i] by {}
            if let Some(address) = export_address(rest, name) {
                let at = choose|at: int|
                    {
                        &&& 0 <= at < rest.len()
                        &&& #[trigger] rest[at] == (name, address)
                        &&& forall|i: int| 0 <= i < at ==> (#[trigger] rest[i]).0 != name
                    };
                assert(exports[at + 1] == (name, address));
                assert forall|i: int| 0 <= i < at + 1 implies (#[trigger] exports[i]).0 != name by {
                    if i > 0 {
                        assert(rest[i - 1].0 != name);
                    }
                }
            }
        }
    }
}

/// An offset and the base together are the address: that of the symbol table if it lists the
/// function, else that of the dynamic symbols, else that of the exports. There is none only
/// where no table knows the function, or it lies below the base.
pub proof fn offsets_count_from_the_base(
    listed: Option<u64>,
    dynamic: Seq<(Option<Seq<char>>, bool, u64)>,
    exports: Seq<(Seq<u8>, u64)>,
    base: u64,
    name: Seq<char>,
)
    ensures
        ({
            let exported = export_address(exports, vstd::utf8::encode_utf8(name));
            let offset = offset_of(listed, dynamic, exports, base, name);
            &&& offset is Some ==> if listed is Some {
                listed == Some((base + offset->Some_0) as u64)
            } else if symbol_address(dynamic, name) is Some {
                symbol_address(dynamic, name)->Some_0 == base + offset->Some_0
            } else {
                exported is Some && exported->Some_0 == base + offset->Some_0
            }
            &&& offset is None ==> if listed is Some {
                listed->Some_0 < base
            } else if symbol_address(dynamic, name) is Some {
                symbol_address(dynamic, name)->Some_0 < base
            } else {
                exported is None || exported->Some_0 < base
            }
        }),
{
}

/// An identity says what kind of file it is of, and spells every byte of the identifier: a GUID
/// with its first three fields turned round.
pub proof fn identities_are_spelled_out(
    id: Seq<u8>,
    uuid: Option<Seq<u8>>,
    pdb: Option<(Seq<u8>, u32, Seq<u8>)>,
    guid: Seq<u8>,
    age: u32,
    path: Seq<u8>,
)
    requires
        guid.len() == 16,
    ensures
        identity_text(Some(id), uuid, pdb) == Some("elf:"@ + hex_of(id)),
        identity_text(None, Some(id), pdb) == Some("macho:"@ + hex_of(id)),
        identity_text(None, None, Some((guid, age, path))) == Some(
            "pdb:"@ + hex_of(
                seq![
                    guid[3],
                    guid[2],
                    guid[1],
                    guid[0],
                    guid[5],
                    guid[4],
                    guid[7],
                    guid[6],
                    guid[8],
                    guid[9],
                    guid[10],
                    guid[11],
                    guid[12],
                    guid[13],
                    guid[14],
                    guid[15],
                ],
            ) + "-"@ + decimal(age as nat),
        ),
        identity_text(None, None, None) is None,
{
    assert(written_guid(guid) =~= seq![
        guid[3],
        guid[2],
        guid[1],
        guid[0],
        guid[5],
        guid[4],
        guid[7],
        guid[6],
        guid[8],
        guid[9],
        guid[10],
        guid[11],
        guid[12],
        guid[13],
        guid[14],
        guid[15],
    ]);
}

/// What the values that an image was asked for show is what they hold.
pub proof fn answers_are_shown_as_they_are(
    bytes: Vec<u8>,
    info: PdbInfo,
    entry: ImageName,
    symbol: ImageSymbol,
    symbols: Seq<ImageSymbol>,
    names: Seq<ImageName>,
    exports: Seq<ImageExport>,
)
    ensures
        optional_bytes(Some(bytes)) == Some(bytes@),
        optional_bytes(None) is None,
        pdb_model(Some(info)) == Some((info.guid@, info.age, info.path@)),
        pdb_model(None) is None,
        name_model(entry).1 == entry.undefined,
        symbol_model(symbol).1 == symbol.undefined,
        symbol_model(symbol).2 == symbol.address,
        symbol_models(symbols).len() == symbols.len(),
        forall|i: int|
            0 <= i < symbols.len() ==> symbol_models(symbols)[i] == symbol_model(
                #[trigger] symbols[i],
            ),
        name_models(names).len() == names.len(),
        forall|i: int|
            0 <= i < names.len() ==> name_models(names)[i] == name_model(#[trigger] names[i]),
        export_models(exports).len() == exports.len(),
        forall|i: int|
            0 <= i < exports.len() ==> export_models(exports)[i] == (
                (#[trigger] exports[i]).name@,
                exports[i].address,
            ),
{
}

/// An address that does not run over lies that far above its base.
pub proof fn addresses_lie_above_their_base(base: u64, reach: u64)
    ensures
        base + reach <= u64::MAX ==> address_at(base, Some(reach)) == base + reach,
        base + reach > u64::MAX ==> address_at(base, Some(reach)) < base,
        address_at(base, None) == 0,
{
}

/// An image is known by its own build identifier first, then by its UUID, then by its PDB's.
pub proof fn images_are_known_by_what_they_carry(bytes: Seq<u8>)
    ensures
        object_build_id(bytes) is Some ==> image_identity(bytes) == Some(
            "elf:"@ + hex_of(object_build_id(bytes)->Some_0),
        ),
        object_build_id(bytes) is None && object_mach_uuid(bytes) is Some ==> image_identity(bytes)
            == Some("macho:"@ + hex_of(object_mach_uuid(bytes)->Some_0)),
        object_build_id(bytes) is None && object_mach_uuid(bytes) is None ==> (image_identity(
            bytes,
        ) is Some <==> object_pdb_info(bytes) is Some),
{
}

/// Debug information is there under either of its two names.
pub proof fn debug_information_has_two_names(bytes: Seq<u8>, name: Seq<char>)
    requires
        name == ".debug_info"@ || name == "__debug_info"@,
        object_has_section(bytes, name),
    ensures
        image_has_debug_info(bytes),
{
}

/// Without a symbol of the name the symbol table lists no address; with one, it is that of the
/// first defined one, as far up as the base lets it reach.
pub proof fn listed_addresses_are_those_of_symbols(bytes: Seq<u8>, name: Seq<char>)
    ensures
        ({
            let number = symbol_number(object_symbols(bytes), name);
            let base = object_address_base(bytes);
            let reach = object_symbol_reach(bytes, number->Some_0);
            &&& image_listed(bytes, name) is Some <==> number is Some
            &&& number is Some && base <= HIGHEST_BASE ==> image_listed(bytes, name) == Some(
                object_symbol_address(bytes, number->Some_0),
            )
            &&& number is Some && base > HIGHEST_BASE && reach is Some && base + reach->Some_0
                <= u64::MAX ==> image_listed(bytes, name) == Some(
                (base + reach->Some_0) as u64,
            ) && image_offset(bytes, name) == reach
        }),
{
}

} // verus!
