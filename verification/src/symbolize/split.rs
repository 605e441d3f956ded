//! Splitting the debug information out of a linked binary.
//!
//! A split leaves a stripped binary and a symbol file that describes the whole
//! linked image. Both are read again afterwards: a comparison of sizes would not
//! notice debug information that was copied rather than moved, a symbol file of
//! another build, or a link that names or checksums another file.
use vstd::prelude::*;
use vstd::string::{StrSliceExecFns, StringExecFns};

use crate::host::HostError;
use crate::paths::{
    a_joined_name_is_the_last_component, components, ends_in_a_name, idle_ends_do_not_count, is_plain_name, joined,
    last_name, parent_path, path_file_name, path_join, path_parent, same_components, same_path,
};
use crate::strings::{
    copy_optional, debug_text, decimal, decimal_text, hex_number, hex_number_text, join2, join3,
    lossy_text, optional_code, optional_code_text, quoted_text, same_text, trim_text, trimmed,
    truncate_text, utf8_lossy, utf8_prefix,
};
use crate::windows::paths::{windows_file_name, windows_name};

use super::client::WorkerError;
use super::crc::{crc32, crc32_of};
use super::image::{
    find_offset, has_debug_info, identity_of, image_debuglink, image_has_debug_info, image_identity,
    image_offset, image_pdb_info, object_debuglink, object_fault, object_pdb_info, parse_image,
};
use super::message::{message_models, optional_text, WireMessage, WireModel};
use super::wire::{
    CaptureFormat, DiscoveryConfig, FrameStatus, ModuleRef, ModuleRefModel, ModuleReport,
    ModuleSymbolStatus, RawCapture, RawCaptureModel, RawFrame, RawFrameModel, RawThread,
    RawThreadModel, SymFrame, SymFrameModel, SymThread, SymbolReport, SymbolReportModel,
};

verus! {

/// The largest image or symbol file that is read.
pub const MAX_IMAGE_BYTES: u64 = 1_073_741_824;

/// How much of a failed tool's standard error is kept.
pub const MAX_TOOL_STDERR_BYTES: usize = 4096;

/// How the symbol file was separated from the binary.
#[derive(Clone, Copy, Debug, PartialEq, Eq, Hash, Structural)]
pub enum SplitMechanism {
    /// `objcopy --only-keep-debug`, `strip --strip-debug`, then
    /// `objcopy --add-gnu-debuglink`.
    GnuDebugLink,
    /// `dsymutil` into a `.dSYM` bundle, then `strip -x`.
    DsymBundle,
    /// The linker wrote a `.pdb` of its own; nothing is carved.
    LinkerPdb,
}

impl SplitMechanism {
    /// The name used in diagnostics.
    pub open spec fn label_text(self) -> Seq<char> {
        match self {
            SplitMechanism::GnuDebugLink => "gnu-debuglink"@,
            SplitMechanism::DsymBundle => "dsym-bundle"@,
            SplitMechanism::LinkerPdb => "linker-pdb"@,
        }
    }

    /// Whether the symbol file describes the entire linked image: true of every
    /// mechanism, so that a partial one could not be introduced unnoticed.
    pub fn covers_linked_image(self) -> (covers: bool)
        ensures
            covers,
    {
        match self {
            SplitMechanism::GnuDebugLink => true,
            SplitMechanism::DsymBundle => true,
            SplitMechanism::LinkerPdb => true,
        }
    }

    pub fn label(self) -> (label: &'static str)
        ensures
            label@ == self.label_text(),
    {
        match self {
            SplitMechanism::GnuDebugLink => "gnu-debuglink",
            SplitMechanism::DsymBundle => "dsym-bundle",
            SplitMechanism::LinkerPdb => "linker-pdb",
        }
    }
}

/// What to split, and where the symbols should go.
#[derive(Clone, Debug)]
pub struct DebugSplitRequest {
    binary: String,
    symbol_file: Option<String>,
}

impl DebugSplitRequest {
    pub closed spec fn spec_binary(&self) -> Seq<char> {
        self.binary@
    }

    /// Where the symbols should go, if not to the place that the platform
    /// expects.
    pub closed spec fn spec_symbol_file(&self) -> Option<Seq<char>> {
        optional_text(self.symbol_file)
    }

    /// Split this linked binary.
    pub fn new(binary: String) -> (request: Self)
        ensures
            request.spec_binary() == binary@,
            request.spec_symbol_file() is None,
    {
        DebugSplitRequest { binary, symbol_file: None }
    }

    /// Write the symbol file to `path`.
    pub fn symbol_file(self, path: String) -> (request: Self)
        ensures
            request.spec_binary() == self.spec_binary(),
            request.spec_symbol_file() == Some(path@),
    {
        DebugSplitRequest { binary: self.binary, symbol_file: Some(path) }
    }

    pub fn binary(&self) -> (path: &str)
        ensures
            path@ == self.spec_binary(),
    {
        self.binary.as_str()
    }

    /// The place that was asked for, if any.
    pub fn requested_symbol_file(&self) -> (path: Option<String>)
        ensures
            optional_text(path) == self.spec_symbol_file(),
    {
        copy_optional(&self.symbol_file)
    }
}

/// Why a split could not be produced, or could not be trusted.
#[derive(Debug)]
pub enum DebugSplitError {
    /// None of the tools that the mechanism needs runs here.
    MechanismUnavailable { mechanism: SplitMechanism, missing: Vec<String> },
    /// The target has no mechanism.
    UnsupportedTarget,
    /// The binary carries no identity by which symbols could be matched later.
    BuildIdentityMissing { binary: String },
    /// The binary has no debug information to carve out.
    DebugInfoMissing { binary: String },
    /// The symbol file that the platform expects does not exist.
    SymbolFileMissing { path: String },
    /// A tool ran and failed.
    Tool { program: String, status: Option<i32>, stderr: String },
    /// A file could not be read, written or replaced.
    Io { path: String, source: HostError },
    /// A file is too large to read.
    ImageTooLarge { path: String, bytes: u64, limit: u64 },
    /// A file is not a readable object file.
    UnreadableImage { path: String, reason: String },
    /// The pair was produced but does not hold together.
    IncompleteSplit { mechanism: SplitMechanism, reason: String },
    /// The function has no address in the binary.
    FunctionAddressUnknown { function: String, binary: String },
    /// The symbolizer did not resolve the function through the symbol file.
    Unresolved {
        function: String,
        module_offset: u64,
        module_status: ModuleSymbolStatus,
        frame_status: FrameStatus,
        resolved: Option<String>,
    },
    /// The worker could not be run.
    Worker(WorkerError),
}

impl DebugSplitError {
    pub open spec fn is_build_identity_missing(&self, path: Seq<char>) -> bool {
        match *self {
            DebugSplitError::BuildIdentityMissing { binary } => binary@ == path,
            _ => false,
        }
    }

    pub open spec fn is_debug_info_missing(&self, path: Seq<char>) -> bool {
        match *self {
            DebugSplitError::DebugInfoMissing { binary } => binary@ == path,
            _ => false,
        }
    }

    pub open spec fn is_unreadable(&self, image: Seq<char>, why: Seq<char>) -> bool {
        match *self {
            DebugSplitError::UnreadableImage { path, reason } => path@ == image && reason@ == why,
            _ => false,
        }
    }

    pub open spec fn is_incomplete(&self, how: SplitMechanism, why: Seq<char>) -> bool {
        match *self {
            DebugSplitError::IncompleteSplit { mechanism, reason } => mechanism == how && reason@
                == why,
            _ => false,
        }
    }
}

/// The name of a state in diagnostics.
pub open spec fn module_status_name(status: ModuleSymbolStatus) -> Seq<char> {
    match status {
        ModuleSymbolStatus::NotFound => "NotFound"@,
        ModuleSymbolStatus::Resolved => "Resolved"@,
        ModuleSymbolStatus::Mismatched => "Mismatched"@,
        ModuleSymbolStatus::NoDebugDirectory => "NoDebugDirectory"@,
        ModuleSymbolStatus::Unsupported => "Unsupported"@,
    }
}

fn module_status_text(status: ModuleSymbolStatus) -> (name: &'static str)
    ensures
        name@ == module_status_name(status),
{
    match status {
        ModuleSymbolStatus::NotFound => "NotFound",
        ModuleSymbolStatus::Resolved => "Resolved",
        ModuleSymbolStatus::Mismatched => "Mismatched",
        ModuleSymbolStatus::NoDebugDirectory => "NoDebugDirectory",
        ModuleSymbolStatus::Unsupported => "Unsupported",
    }
}

/// The name of a state in diagnostics.
pub open spec fn frame_status_name(status: FrameStatus) -> Seq<char> {
    match status {
        FrameStatus::RawOnly => "RawOnly"@,
        FrameStatus::Resolved => "Resolved"@,
        FrameStatus::ModuleUnknown => "ModuleUnknown"@,
    }
}

fn frame_status_text(status: FrameStatus) -> (name: &'static str)
    ensures
        name@ == frame_status_name(status),
{
    match status {
        FrameStatus::RawOnly => "RawOnly",
        FrameStatus::Resolved => "Resolved",
        FrameStatus::ModuleUnknown => "ModuleUnknown",
    }
}

/// Names with `or` between them.
pub open spec fn alternatives(names: Seq<Seq<char>>) -> Seq<char>
    decreases names.len(),
{
    if names.len() == 0 {
        Seq::empty()
    } else if names.len() == 1 {
        names[0]
    } else {
        alternatives(names.drop_last()) + " or "@ + names.last()
    }
}

fn alternatives_text(names: &Vec<String>) -> (text: String)
    ensures
        text@ == alternatives(texts(names@)),
{
    let ghost all = texts(names@);
    let mut text = String::new();
    assert(text@ =~= Seq::<char>::empty());
    for at in 0..names.len()
        invariant
            all == texts(names@),
            text@ == alternatives(all.take(at as int)),
    {
        let ghost next = all.take(at + 1);
        proof {
            assert(next.drop_last() =~= all.take(at as int));
            assert(next.last() == names@[at as int]@);
        }
        if at > 0 {
            text.append(" or ");
            text.append(names[at].as_str());
        } else {
            text = names[at].clone();
        }
    }
    assert(all.take(all.len() as int) =~= all);
    text
}

impl DebugSplitError {
    pub open spec fn text(&self) -> Seq<char> {
        match *self {
            DebugSplitError::MechanismUnavailable { mechanism, missing } => mechanism.label_text()
                + " needs "@ + alternatives(texts(missing@)) + " on PATH"@,
            DebugSplitError::UnsupportedTarget =>
                "no debug-symbol split mechanism for this target"@,
            DebugSplitError::BuildIdentityMissing { binary } => binary@
                + " has no build identity; a Linux release lane needs -C link-arg=-Wl,--build-id, which Rust does not pass by default"@,
            DebugSplitError::DebugInfoMissing { binary } => binary@
                + " carries no debug info to split out"@,
            DebugSplitError::SymbolFileMissing { path } => path@ + " does not exist"@,
            DebugSplitError::Tool { program, status, stderr } => program@ + " failed with status "@
                + optional_code(status) + ": "@ + stderr@,
            DebugSplitError::Io { path, source } => path@ + ": "@ + source.message@,
            DebugSplitError::ImageTooLarge { path, bytes, limit } => path@ + " is "@ + decimal(
                bytes as nat,
            ) + " bytes, over the "@ + decimal(limit as nat) + "-byte inspection limit"@,
            DebugSplitError::UnreadableImage { path, reason } => path@
                + " is not a readable object file: "@ + reason@,
            DebugSplitError::IncompleteSplit { mechanism, reason } => mechanism.label_text()
                + " produced an unusable pair: "@ + reason@,
            DebugSplitError::FunctionAddressUnknown { function, binary } => binary@
                + " has no symbol named "@ + function@,
            DebugSplitError::Unresolved {
                function,
                module_offset,
                module_status,
                frame_status,
                resolved,
            } => "symbolizing "@ + function@ + " at +0x"@ + hex_number(module_offset as nat)
                + " returned "@ + (match resolved {
                Some(name) => "Some("@ + debug_text(name@) + ")"@,
                None => "None"@,
            }) + " (module "@ + module_status_name(module_status) + ", frame "@
                + frame_status_name(frame_status) + ")"@,
            DebugSplitError::Worker(error) => "symbolizer worker: "@ + error.text(),
        }
    }

    /// A sentence for people.
    pub fn message(&self) -> (message: String)
        ensures
            message@ == self.text(),
    {
        match self {
            DebugSplitError::MechanismUnavailable { mechanism, missing } => {
                let mut text = join3(
                    mechanism.label(),
                    " needs ",
                    alternatives_text(missing).as_str(),
                );
                text.append(" on PATH");
                text
            },
            DebugSplitError::UnsupportedTarget =>
                "no debug-symbol split mechanism for this target".to_owned(),
            DebugSplitError::BuildIdentityMissing { binary } => join2(
                binary.as_str(),
                " has no build identity; a Linux release lane needs -C link-arg=-Wl,--build-id, which Rust does not pass by default",
            ),
            DebugSplitError::DebugInfoMissing { binary } => join2(
                binary.as_str(),
                " carries no debug info to split out",
            ),
            DebugSplitError::SymbolFileMissing { path } => join2(path.as_str(), " does not exist"),
            DebugSplitError::Tool { program, status, stderr } => {
                let mut text = join3(
                    program.as_str(),
                    " failed with status ",
                    optional_code_text(*status).as_str(),
                );
                text.append(": ");
                text.append(stderr.as_str());
                text
            },
            DebugSplitError::Io { path, source } => join3(
                path.as_str(),
                ": ",
                source.message.as_str(),
            ),
            DebugSplitError::ImageTooLarge { path, bytes, limit } => {
                let mut text = join3(path.as_str(), " is ", decimal_text(*bytes).as_str());
                text.append(" bytes, over the ");
                text.append(decimal_text(*limit).as_str());
                text.append("-byte inspection limit");
                text
            },
            DebugSplitError::UnreadableImage { path, reason } => join3(
                path.as_str(),
                " is not a readable object file: ",
                reason.as_str(),
            ),
            DebugSplitError::IncompleteSplit { mechanism, reason } => join3(
                mechanism.label(),
                " produced an unusable pair: ",
                reason.as_str(),
            ),
            DebugSplitError::FunctionAddressUnknown { function, binary } => join3(
                binary.as_str(),
                " has no symbol named ",
                function.as_str(),
            ),
            DebugSplitError::Unresolved {
                function,
                module_offset,
                module_status,
                frame_status,
                resolved,
            } => {
                let mut text = join3("symbolizing ", function.as_str(), " at +0x");
                text.append(hex_number_text(*module_offset).as_str());
                text.append(" returned ");
                let name = match resolved {
                    Some(name) => join3("Some(", quoted_text(name.as_str()).as_str(), ")"),
                    None => "None".to_owned(),
                };
                text.append(name.as_str());
                text.append(" (module ");
                text.append(module_status_text(*module_status));
                text.append(", frame ");
                text.append(frame_status_text(*frame_status));
                text.append(")");
                text
            },
            DebugSplitError::Worker(error) => join2(
                "symbolizer worker: ",
                error.message().as_str(),
            ),
        }
    }
}

/// The pair does not hold together.
pub fn incomplete(mechanism: SplitMechanism, reason: &str) -> (error: DebugSplitError)
    ensures
        error.is_incomplete(mechanism, reason@),
{
    DebugSplitError::IncompleteSplit { mechanism, reason: reason.to_owned() }
}

/// Refuses a file that is too large to be read, by its length alone.
pub fn admit_image(path: &str, length: u64) -> (admitted: Result<(), DebugSplitError>)
    ensures
        match admitted {
            Ok(()) => length <= MAX_IMAGE_BYTES,
            Err(DebugSplitError::ImageTooLarge { path: reported, bytes, limit }) => length
                > MAX_IMAGE_BYTES && reported@ == path@ && bytes == length && limit
                == MAX_IMAGE_BYTES,
            Err(_) => false,
        },
{
    if length > MAX_IMAGE_BYTES {
        return Err(
            DebugSplitError::ImageTooLarge {
                path: path.to_owned(),
                bytes: length,
                limit: MAX_IMAGE_BYTES,
            },
        );
    }
    Ok(())
}

/// Refuses bytes that are no object file.
pub fn parse_object(path: &str, bytes: &[u8]) -> (parsed: Result<(), DebugSplitError>)
    ensures
        match (parsed, object_fault(bytes@)) {
            (Ok(()), None) => true,
            (Err(error), Some(reason)) => error.is_unreadable(path@, reason),
            _ => false,
        },
{
    match parse_image(bytes) {
        Ok(()) => Ok(()),
        Err(reason) => Err(DebugSplitError::UnreadableImage { path: path.to_owned(), reason }),
    }
}

// ---------------------------------------------------------------------------
// Names
// ---------------------------------------------------------------------------

/// The last component of a path, or all of it where there is none.
pub open spec fn name_of(path: Seq<char>) -> Seq<char> {
    match last_name(path) {
        Some(name) => name,
        None => path,
    }
}

pub fn file_name(path: &str) -> (name: String)
    ensures
        name@ == name_of(path@),
{
    match path_file_name(path) {
        Some(name) => name,
        None => path.to_owned(),
    }
}

/// The Mach-O binary inside a `.dSYM` bundle.
pub open spec fn dwarf_binary(bundle: Seq<char>, binary: Seq<char>) -> Seq<char> {
    joined(joined(joined(joined(bundle, "Contents"@), "Resources"@), "DWARF"@), name_of(binary))
}

pub fn dsym_dwarf_binary(bundle: &str, binary: &str) -> (path: String)
    ensures
        path@ == dwarf_binary(bundle@, binary@),
{
    let contents = path_join(bundle, "Contents");
    let resources = path_join(contents.as_str(), "Resources");
    let dwarf = path_join(resources.as_str(), "DWARF");
    path_join(dwarf.as_str(), file_name(binary).as_str())
}

/// The directory that a binary is in.
pub open spec fn directory_of(binary: Seq<char>) -> Seq<char> {
    match parent_path(binary) {
        Some(parent) => if parent.len() == 0 { "."@ } else { parent },
        None => "."@,
    }
}

pub fn parent_directory(binary: &str) -> (directory: String)
    ensures
        directory@ == directory_of(binary@),
{
    match path_parent(binary) {
        Some(parent) => if parent.as_str().unicode_len() == 0 { ".".to_owned() } else { parent },
        None => ".".to_owned(),
    }
}

/// A path with a suffix after its whole file name, so that `libfoo.so.1` and
/// `libfoo.so.2` keep different names.
pub fn appended_extension(path: &str, suffix: &str) -> (appended: String)
    ensures
        appended@ == path@ + suffix@,
{
    join2(path, suffix)
}

/// The option that records a symbol file in a binary: by bare name where both
/// are in one directory, by full path elsewhere.
pub open spec fn debuglink_option(symbol_file: Seq<char>, directory: Seq<char>) -> Seq<char> {
    let sibling = match parent_path(symbol_file) {
        Some(parent) => same_components(parent, directory),
        None => false,
    };
    "--add-gnu-debuglink="@ + if sibling { name_of(symbol_file) } else { symbol_file }
}

pub fn debuglink_argument(symbol_file: &str, directory: &str) -> (argument: String)
    ensures
        argument@ == debuglink_option(symbol_file@, directory@),
{
    let sibling = match path_parent(symbol_file) {
        Some(parent) => same_path(parent.as_str(), directory),
        None => false,
    };
    if sibling {
        join2("--add-gnu-debuglink=", file_name(symbol_file).as_str())
    } else {
        join2("--add-gnu-debuglink=", symbol_file)
    }
}

// ---------------------------------------------------------------------------
// Tools
// ---------------------------------------------------------------------------

pub open spec fn texts(list: Seq<String>) -> Seq<Seq<char>> {
    list.map_values(|text: String| text@)
}

/// The tool to use, given which of the names was the first to run, if any did.
pub fn probe_tool(mechanism: SplitMechanism, names: Vec<String>, ran: Option<usize>) -> (tool:
    Result<String, DebugSplitError>)
    requires
        ran is Some ==> ran->Some_0 < names@.len(),
    ensures
        match (ran, tool) {
            (Some(at), Ok(tool)) => tool@ == names@[at as int]@,
            (
                None,
                Err(DebugSplitError::MechanismUnavailable { mechanism: reported, missing }),
            ) => reported == mechanism && missing == names,
            _ => false,
        },
{
    match ran {
        Some(at) => Ok(names[at].clone()),
        None => Err(DebugSplitError::MechanismUnavailable { mechanism, missing: names }),
    }
}

/// The failure of a tool, with a bounded part of what it said.
pub fn tool_failure(program: &str, status: Option<i32>, stderr: &[u8]) -> (error: DebugSplitError)
    ensures
        match error {
            DebugSplitError::Tool { program: name, status: code, stderr: text } => name@ == program@
                && code == status && text@ == utf8_prefix(
                trimmed(utf8_lossy(stderr@)),
                MAX_TOOL_STDERR_BYTES as nat,
            ),
            _ => false,
        },
{
    let text = trim_text(lossy_text(stderr).as_str());
    DebugSplitError::Tool {
        program: program.to_owned(),
        status,
        stderr: truncate_text(text.as_str(), MAX_TOOL_STDERR_BYTES),
    }
}

// ---------------------------------------------------------------------------
// Gates before any tool runs
// ---------------------------------------------------------------------------

/// Whether an ELF binary can be split: it must carry debug information and then
/// an identity, which is handed back.
pub fn admit_gnu_split(binary: &str, bytes: &[u8]) -> (identity: Result<String, DebugSplitError>)
    ensures
        match identity {
            Ok(identity) => object_fault(bytes@) is None && image_has_debug_info(bytes@)
                && image_identity(bytes@) == Some(identity@),
            Err(error) => if object_fault(bytes@) is Some {
                error.is_unreadable(binary@, object_fault(bytes@)->Some_0)
            } else if !image_has_debug_info(bytes@) {
                error.is_debug_info_missing(binary@)
            } else {
                image_identity(bytes@) is None && error.is_build_identity_missing(binary@)
            },
        },
{
    match parse_object(binary, bytes) {
        Ok(()) => {},
        Err(error) => {
            return Err(error);
        },
    }
    if !has_debug_info(bytes) {
        return Err(DebugSplitError::DebugInfoMissing { binary: binary.to_owned() });
    }
    match identity_of(bytes) {
        Some(identity) => Ok(identity),
        None => Err(DebugSplitError::BuildIdentityMissing { binary: binary.to_owned() }),
    }
}

/// Whether a binary carries an identity, which is handed back. A Mach-O binary
/// holds no debug information of its own, and a PE binary none at all.
pub fn admit_identified(binary: &str, bytes: &[u8]) -> (identity: Result<String, DebugSplitError>)
    ensures
        match identity {
            Ok(identity) => object_fault(bytes@) is None && image_identity(bytes@) == Some(
                identity@,
            ),
            Err(error) => if object_fault(bytes@) is Some {
                error.is_unreadable(binary@, object_fault(bytes@)->Some_0)
            } else {
                image_identity(bytes@) is None && error.is_build_identity_missing(binary@)
            },
        },
{
    match parse_object(binary, bytes) {
        Ok(()) => {},
        Err(error) => {
            return Err(error);
        },
    }
    match identity_of(bytes) {
        Some(identity) => Ok(identity),
        None => Err(DebugSplitError::BuildIdentityMissing { binary: binary.to_owned() }),
    }
}

// ---------------------------------------------------------------------------
// The pair
// ---------------------------------------------------------------------------

/// A stripped binary and the symbol file that belongs to it.
#[derive(Clone, Debug)]
pub struct DebugSplit {
    binary: String,
    symbol_file: String,
    mechanism: SplitMechanism,
    identity: String,
}

impl DebugSplit {
    pub closed spec fn spec_binary(&self) -> Seq<char> {
        self.binary@
    }

    pub closed spec fn spec_symbol_file(&self) -> Seq<char> {
        self.symbol_file@
    }

    pub closed spec fn spec_mechanism(&self) -> SplitMechanism {
        self.mechanism
    }

    pub closed spec fn spec_identity(&self) -> Seq<char> {
        self.identity@
    }

    /// The file to point a symbolizer at. An ELF or Mach-O binary keeps a symbol
    /// table that could answer by itself, so the symbol file is named; a PE
    /// binary can only answer through its PDB.
    pub open spec fn spec_resolution_image(&self) -> Seq<char> {
        match self.spec_mechanism() {
            SplitMechanism::GnuDebugLink => self.spec_symbol_file(),
            SplitMechanism::DsymBundle => dwarf_binary(self.spec_symbol_file(), self.spec_binary()),
            SplitMechanism::LinkerPdb => self.spec_binary(),
        }
    }

    pub(crate) fn assemble(
        binary: String,
        symbol_file: String,
        mechanism: SplitMechanism,
        identity: String,
    ) -> (split: Self)
        ensures
            split.spec_binary() == binary@,
            split.spec_symbol_file() == symbol_file@,
            split.spec_mechanism() == mechanism,
            split.spec_identity() == identity@,
    {
        DebugSplit { binary, symbol_file, mechanism, identity }
    }

    /// The stripped binary, at its original path.
    pub fn binary(&self) -> (path: &str)
        ensures
            path@ == self.spec_binary(),
    {
        self.binary.as_str()
    }

    /// The symbol file; a `.dSYM` one is a directory.
    pub fn symbol_file(&self) -> (path: &str)
        ensures
            path@ == self.spec_symbol_file(),
    {
        self.symbol_file.as_str()
    }

    pub fn mechanism(&self) -> (mechanism: SplitMechanism)
        ensures
            mechanism == self.spec_mechanism(),
    {
        self.mechanism
    }

    /// The identity that both files share: `elf:<hex>`, `macho:<hex>` or
    /// `pdb:<guid>-<age>`.
    pub fn build_identity(&self) -> (identity: &str)
        ensures
            identity@ == self.spec_identity(),
    {
        self.identity.as_str()
    }

    pub fn resolution_image(&self) -> (path: String)
        ensures
            path@ == self.spec_resolution_image(),
    {
        match self.mechanism {
            SplitMechanism::GnuDebugLink => self.symbol_file.clone(),
            SplitMechanism::DsymBundle => dsym_dwarf_binary(
                self.symbol_file.as_str(),
                self.binary.as_str(),
            ),
            SplitMechanism::LinkerPdb => self.binary.clone(),
        }
    }

    /// The offset of `function` from the base of the stripped binary, whose
    /// bytes are given. The binary is asked and not the symbol file: an address
    /// taken from the symbol file would only show that it agrees with itself.
    pub fn function_offset(&self, bytes: &[u8], function: &str) -> (offset: Result<
        u64,
        DebugSplitError,
    >)
        ensures
            match offset {
                Ok(offset) => object_fault(bytes@) is None && image_offset(bytes@, function@)
                    == Some(offset),
                Err(error) => if object_fault(bytes@) is Some {
                    error.is_unreadable(self.spec_binary(), object_fault(bytes@)->Some_0)
                } else {
                    image_offset(bytes@, function@) is None && match error {
                        DebugSplitError::FunctionAddressUnknown { function: name, binary } => name@
                            == function@ && binary@ == self.spec_binary(),
                        _ => false,
                    }
                },
            },
    {
        match parse_object(self.binary.as_str(), bytes) {
            Ok(()) => {},
            Err(error) => {
                return Err(error);
            },
        }
        match find_offset(bytes, function) {
            Some(offset) => Ok(offset),
            None => Err(
                DebugSplitError::FunctionAddressUnknown {
                    function: function.to_owned(),
                    binary: self.binary.clone(),
                },
            ),
        }
    }

    /// What the image is called: the last name of its path, by the rule of the host
    /// that the mechanism belongs to, or the whole path where there is none.
    pub open spec fn spec_module_name(&self) -> Seq<char> {
        match self.spec_mechanism() {
            SplitMechanism::LinkerPdb => match windows_name(self.spec_binary()) {
                Some(name) => name,
                None => self.spec_binary(),
            },
            _ => name_of(self.spec_binary()),
        }
    }

    fn module_name(&self) -> (name: String)
        ensures
            name@ == self.spec_module_name(),
    {
        match self.mechanism {
            SplitMechanism::LinkerPdb => match windows_file_name(self.binary.as_str()) {
                Some(name) => name,
                None => self.binary.clone(),
            },
            _ => file_name(self.binary.as_str()),
        }
    }

    /// The capture that asks a symbolizer for one address of this image.
    pub open spec fn spec_question(&self, module_offset: u64) -> RawCaptureModel {
        RawCaptureModel {
            format: CaptureFormat::CooperativeFrames,
            discovery: DiscoveryConfig::blank_model(),
            modules: seq![
                ModuleRefModel {
                    name: self.spec_module_name(),
                    debug_id: Some(self.spec_identity()),
                    path_hint: Some(self.spec_resolution_image()),
                    ..ModuleRef::blank_model()
                },
            ],
            threads: seq![
                RawThreadModel {
                    frames: seq![
                        RawFrameModel { module_index: 0, relative_address: module_offset },
                    ],
                    ..RawThread::blank_model()
                },
            ],
        }
    }

    pub fn question(&self, module_offset: u64) -> (capture: RawCapture)
        ensures
            capture.model() == self.spec_question(module_offset),
    {
        let mut module = ModuleRef::blank();
        module.name = self.module_name();
        module.debug_id = Some(self.identity.clone());
        module.path_hint = Some(self.resolution_image());
        let mut modules: Vec<ModuleRef> = Vec::new();
        modules.push(module);
        let mut thread = RawThread::blank();
        thread.frames.push(RawFrame { module_index: 0, relative_address: module_offset });
        proof {
            assert(message_models::<RawFrame>(thread.frames@) =~= seq![
                RawFrameModel { module_index: 0, relative_address: module_offset },
            ]);
        }
        let mut threads: Vec<RawThread> = Vec::new();
        threads.push(thread);
        let capture = RawCapture {
            format: CaptureFormat::CooperativeFrames,
            discovery: DiscoveryConfig::blank(),
            modules,
            threads,
        };
        proof {
            let expected = self.spec_question(module_offset);
            assert(capture.model().modules =~= expected.modules);
            assert(capture.model().threads =~= expected.threads);
        }
        capture
    }

    /// Whether a report answers with `function` from the produced symbol file.
    pub fn judge(&self, function: &str, module_offset: u64, report: &SymbolReport) -> (verdict:
        Result<VerifiedResolution, DebugSplitError>)
        ensures
            match verdict {
                Ok(resolution) => {
                    &&& names_function(report.model(), function@)
                    &&& self.spec_answered_by_pair(report.model())
                    &&& resolution.spec_function() == function@
                    &&& resolution.spec_module_offset() == module_offset
                    &&& resolution.spec_symbol_file() == match answering_file(report.model()) {
                        Some(file) => file,
                        None => self.spec_resolution_image(),
                    }
                    &&& resolution.spec_source_line() == answered_line(report.model())
                },
                Err(
                    DebugSplitError::Unresolved {
                        function: asked,
                        module_offset: offset,
                        module_status,
                        frame_status,
                        resolved,
                    },
                ) => {
                    &&& !names_function(report.model(), function@)
                    &&& asked@ == function@
                    &&& offset == module_offset
                    &&& module_status == answered_status(report.model())
                    &&& frame_status == answered_frame_status(report.model())
                    &&& optional_text(resolved) == answered_function(report.model())
                },
                Err(error) => {
                    &&& names_function(report.model(), function@)
                    &&& !self.spec_answered_by_pair(report.model())
                    &&& error.is_incomplete(
                        self.spec_mechanism(),
                        "the symbolizer answered from "@ + match answering_file(report.model()) {
                            Some(file) => file,
                            None => "<nothing>"@,
                        } + " rather than the produced symbol file"@,
                    )
                },
            },
    {
        let image = self.resolution_image();
        let ghost model = report.model();
        let (module_status, symbol_file) = match first_module(report) {
            Some(module) => (module.status, copy_optional(&module.symbol_file)),
            None => (ModuleSymbolStatus::NotFound, None),
        };
        let frame = first_frame(report);
        let (resolved, frame_status) = match frame {
            Some(frame) => (copy_optional(&frame.function), frame.status),
            None => (None, FrameStatus::RawOnly),
        };
        let named = match &resolved {
            Some(resolved) => same_text(resolved.as_str(), function),
            None => false,
        };
        if module_status != ModuleSymbolStatus::Resolved || !named {
            return Err(
                DebugSplitError::Unresolved {
                    function: function.to_owned(),
                    module_offset,
                    module_status,
                    frame_status,
                    resolved,
                },
            );
        }
        let from_image = match &symbol_file {
            Some(file) => same_text(file.as_str(), image.as_str()),
            None => false,
        };
        if self.mechanism != SplitMechanism::LinkerPdb && !from_image {
            let reason = match &symbol_file {
                Some(file) => join3(
                    "the symbolizer answered from ",
                    file.as_str(),
                    " rather than the produced symbol file",
                ),
                None => join3(
                    "the symbolizer answered from ",
                    "<nothing>",
                    " rather than the produced symbol file",
                ),
            };
            return Err(incomplete(self.mechanism, reason.as_str()));
        }
        let source_line = match frame {
            Some(frame) => match (copy_optional(&frame.file), frame.line) {
                (Some(file), Some(line)) => Some((file, line)),
                _ => None,
            },
            None => None,
        };
        Ok(
            VerifiedResolution {
                function: function.to_owned(),
                module_offset,
                symbol_file: match symbol_file {
                    Some(file) => file,
                    None => image,
                },
                source_line,
            },
        )
    }

    /// Whether the file that answered is the one this split produced. For a PDB
    /// there is no other that could have.
    pub open spec fn spec_answered_by_pair(&self, report: SymbolReportModel) -> bool {
        self.spec_mechanism() == SplitMechanism::LinkerPdb || answering_file(report) == Some(
            self.spec_resolution_image(),
        )
    }
}

/// How far the worker got with the one module that was asked about.
pub open spec fn answered_status(report: SymbolReportModel) -> ModuleSymbolStatus {
    if report.modules.len() == 0 { ModuleSymbolStatus::NotFound } else { report.modules[0].status }
}

/// The file that the worker answered from.
pub open spec fn answering_file(report: SymbolReportModel) -> Option<Seq<char>> {
    if report.modules.len() == 0 { None } else { report.modules[0].symbol_file }
}

/// The one frame that was asked about.
pub open spec fn answered_frame(report: SymbolReportModel) -> Option<SymFrameModel> {
    if report.threads.len() == 0 || report.threads[0].frames.len() == 0 {
        None
    } else {
        Some(report.threads[0].frames[0])
    }
}

pub open spec fn answered_function(report: SymbolReportModel) -> Option<Seq<char>> {
    match answered_frame(report) {
        Some(frame) => frame.function,
        None => None,
    }
}

pub open spec fn answered_frame_status(report: SymbolReportModel) -> FrameStatus {
    match answered_frame(report) {
        Some(frame) => frame.status,
        None => FrameStatus::RawOnly,
    }
}

/// The source position, where the worker gave both a file and a line.
pub open spec fn answered_line(report: SymbolReportModel) -> Option<(Seq<char>, u32)> {
    match answered_frame(report) {
        Some(frame) => match (frame.file, frame.line) {
            (Some(file), Some(line)) => Some((file, line)),
            _ => None,
        },
        None => None,
    }
}

/// Whether the module was resolved and the frame has that very name.
pub open spec fn names_function(report: SymbolReportModel, function: Seq<char>) -> bool {
    answered_status(report) == ModuleSymbolStatus::Resolved && answered_function(report) == Some(
        function,
    )
}

fn first_module(report: &SymbolReport) -> (module: Option<&ModuleReport>)
    ensures
        match module {
            Some(module) => report.model().modules.len() > 0 && report.model().modules[0]
                == module.model(),
            None => report.model().modules.len() == 0,
        },
{
    if report.modules.len() == 0 { None } else { Some(&report.modules[0]) }
}

fn first_frame(report: &SymbolReport) -> (frame: Option<&SymFrame>)
    ensures
        match frame {
            Some(frame) => answered_frame(report.model()) == Some(frame.model()),
            None => answered_frame(report.model()) is None,
        },
{
    if report.threads.len() == 0 {
        return None;
    }
    let thread: &SymThread = &report.threads[0];
    assert(report.model().threads[0] == thread.model());
    if thread.frames.len() == 0 {
        return None;
    }
    assert(thread.model().frames[0] == thread.frames@[0].model());
    Some(&thread.frames[0])
}

/// Proof that a symbolizer resolved a known function through the split.
#[derive(Clone, Debug, PartialEq, Eq)]
pub struct VerifiedResolution {
    function: String,
    module_offset: u64,
    symbol_file: String,
    source_line: Option<(String, u32)>,
}

impl VerifiedResolution {
    pub closed spec fn spec_function(&self) -> Seq<char> {
        self.function@
    }

    pub closed spec fn spec_module_offset(&self) -> u64 {
        self.module_offset
    }

    pub closed spec fn spec_symbol_file(&self) -> Seq<char> {
        self.symbol_file@
    }

    pub closed spec fn spec_source_line(&self) -> Option<(Seq<char>, u32)> {
        match self.source_line {
            Some(place) => Some((place.0@, place.1)),
            None => None,
        }
    }

    /// The function that was resolved.
    pub fn function(&self) -> (name: &str)
        ensures
            name@ == self.spec_function(),
    {
        self.function.as_str()
    }

    /// Its offset from the base of the binary.
    pub fn module_offset(&self) -> (offset: u64)
        ensures
            offset == self.spec_module_offset(),
    {
        self.module_offset
    }

    /// The symbol file that was read.
    pub fn symbol_file(&self) -> (path: &str)
        ensures
            path@ == self.spec_symbol_file(),
    {
        self.symbol_file.as_str()
    }

    /// Source file and line, where the worker was asked for them.
    pub fn source_line(&self) -> (place: Option<(&str, u32)>)
        ensures
            match place {
                Some((file, line)) => self.spec_source_line() == Some((file@, line)),
                None => self.spec_source_line() is None,
            },
    {
        match &self.source_line {
            Some(place) => Some((place.0.as_str(), place.1)),
            None => None,
        }
    }
}

// ---------------------------------------------------------------------------
// Inspection of what was produced
// ---------------------------------------------------------------------------

/// What a produced ELF pair fails on first, if anything.
pub open spec fn gnu_pair_fault(
    binary_has_debug: bool,
    symbols_have_debug: bool,
    symbols_identity: Option<Seq<char>>,
    identity: Seq<char>,
    link: Option<(Seq<char>, u32)>,
    symbol_name: Seq<char>,
    symbols_crc: u32,
) -> Option<Seq<char>> {
    if binary_has_debug {
        Some(
            "the stripped binary still carries DWARF; the debug info was duplicated, not moved"@,
        )
    } else if !symbols_have_debug {
        Some("the symbol file carries no DWARF, so it can resolve nothing"@)
    } else if symbols_identity != Some(identity) {
        Some("the symbol file's build identity does not match the binary"@)
    } else {
        match link {
            None => Some("the stripped binary has no .gnu_debuglink section"@),
            Some((name, crc)) => if name != symbol_name {
                Some("the .gnu_debuglink names a different file than the symbol file produced"@)
            } else if crc != symbols_crc {
                Some("the .gnu_debuglink CRC-32 does not match the symbol file's bytes"@)
            } else {
                None
            },
        }
    }
}

/// [`gnu_pair_fault`] as code: the phrase for the first thing that does not hold.
pub fn check_gnu_pair(
    binary_has_debug: bool,
    symbols_have_debug: bool,
    symbols_identity: &Option<String>,
    identity: &str,
    link: &Option<(String, u32)>,
    symbol_name: &str,
    symbols_crc: u32,
) -> (fault: Option<&'static str>)
    ensures
        ({
            let link = match *link {
                Some(link) => Some((link.0@, link.1)),
                None => None,
            };
            let expected = gnu_pair_fault(
                binary_has_debug,
                symbols_have_debug,
                optional_text(*symbols_identity),
                identity@,
                link,
                symbol_name@,
                symbols_crc,
            );
            match fault {
                Some(fault) => expected == Some(fault@),
                None => expected is None,
            }
        }),
{
    if binary_has_debug {
        return Some(
            "the stripped binary still carries DWARF; the debug info was duplicated, not moved",
        );
    }
    if !symbols_have_debug {
        return Some("the symbol file carries no DWARF, so it can resolve nothing");
    }
    let matches = match symbols_identity {
        Some(found) => same_text(found.as_str(), identity),
        None => false,
    };
    if !matches {
        return Some("the symbol file's build identity does not match the binary");
    }
    match link {
        None => Some("the stripped binary has no .gnu_debuglink section"),
        Some(link) => {
            if !same_text(link.0.as_str(), symbol_name) {
                Some("the .gnu_debuglink names a different file than the symbol file produced")
            } else if link.1 != symbols_crc {
                Some("the .gnu_debuglink CRC-32 does not match the symbol file's bytes")
            } else {
                None
            }
        },
    }
}

pub open spec fn lossy_link(link: Option<(Seq<u8>, u32)>) -> Option<(Seq<char>, u32)> {
    match link {
        Some((name, crc)) => Some((utf8_lossy(name), crc)),
        None => None,
    }
}

/// Reads a produced ELF pair again and refuses what a comparison of sizes would
/// pass.
pub fn inspect_gnu_debuglink(split: &DebugSplit, binary: &[u8], symbols: &[u8]) -> (sound: Result<
    (),
    DebugSplitError,
>)
    ensures
        ({
            let fault = gnu_pair_fault(
                image_has_debug_info(binary@),
                image_has_debug_info(symbols@),
                image_identity(symbols@),
                split.spec_identity(),
                lossy_link(object_debuglink(binary@)),
                name_of(split.spec_symbol_file()),
                crc32_of(symbols@),
            );
            match sound {
                Ok(()) => object_fault(binary@) is None && object_fault(symbols@) is None
                    && fault is None,
                Err(error) => if object_fault(binary@) is Some {
                    error.is_unreadable(split.spec_binary(), object_fault(binary@)->Some_0)
                } else if object_fault(symbols@) is Some {
                    error.is_unreadable(split.spec_symbol_file(), object_fault(symbols@)->Some_0)
                } else {
                    fault is Some && error.is_incomplete(split.spec_mechanism(), fault->Some_0)
                },
            }
        }),
{
    match parse_object(split.binary.as_str(), binary) {
        Ok(()) => {},
        Err(error) => {
            return Err(error);
        },
    }
    match parse_object(split.symbol_file.as_str(), symbols) {
        Ok(()) => {},
        Err(error) => {
            return Err(error);
        },
    }
    let link = match image_debuglink(binary) {
        Some(link) => Some((lossy_text(link.0.as_slice()), link.1)),
        None => None,
    };
    let symbols_identity = identity_of(symbols);
    match check_gnu_pair(
        has_debug_info(binary),
        has_debug_info(symbols),
        &symbols_identity,
        split.identity.as_str(),
        &link,
        file_name(split.symbol_file.as_str()).as_str(),
        crc32(symbols),
    ) {
        Some(fault) => Err(incomplete(split.mechanism, fault)),
        None => Ok(()),
    }
}

/// What a produced bundle fails on first, if anything.
pub open spec fn dsym_pair_fault(
    has_debug: bool,
    found: Option<Seq<char>>,
    identity: Seq<char>,
) -> Option<Seq<char>> {
    if !has_debug {
        Some("the .dSYM bundle carries no DWARF, so it can resolve nothing"@)
    } else if found != Some(identity) {
        Some("the .dSYM bundle's UUID does not match the binary"@)
    } else {
        None
    }
}

/// Reads a produced bundle again. `dwarf` holds the bytes of the Mach-O file
/// inside the bundle, or nothing where there is no such file.
pub fn inspect_dsym_bundle(split: &DebugSplit, dwarf: Option<&[u8]>) -> (sound: Result<
    (),
    DebugSplitError,
>)
    ensures
        match dwarf {
            None => sound is Err && sound->Err_0.is_incomplete(
                split.spec_mechanism(),
                "the .dSYM bundle has no DWARF binary inside it"@,
            ),
            Some(bytes) => {
                let fault = dsym_pair_fault(
                    image_has_debug_info(bytes@),
                    image_identity(bytes@),
                    split.spec_identity(),
                );
                match sound {
                    Ok(()) => object_fault(bytes@) is None && fault is None,
                    Err(error) => if object_fault(bytes@) is Some {
                        error.is_unreadable(
                            dwarf_binary(split.spec_symbol_file(), split.spec_binary()),
                            object_fault(bytes@)->Some_0,
                        )
                    } else {
                        fault is Some && error.is_incomplete(split.spec_mechanism(), fault->Some_0)
                    },
                }
            },
        },
{
    let bytes = match dwarf {
        Some(bytes) => bytes,
        None => {
            return Err(
                incomplete(split.mechanism, "the .dSYM bundle has no DWARF binary inside it"),
            );
        },
    };
    let path = dsym_dwarf_binary(split.symbol_file.as_str(), split.binary.as_str());
    match parse_object(path.as_str(), bytes) {
        Ok(()) => {},
        Err(error) => {
            return Err(error);
        },
    }
    if !has_debug_info(bytes) {
        return Err(
            incomplete(
                split.mechanism,
                "the .dSYM bundle carries no DWARF, so it can resolve nothing",
            ),
        );
    }
    let matches = match identity_of(bytes) {
        Some(found) => same_text(found.as_str(), split.identity.as_str()),
        None => false,
    };
    if !matches {
        return Err(
            incomplete(split.mechanism, "the .dSYM bundle's UUID does not match the binary"),
        );
    }
    Ok(())
}

// ---------------------------------------------------------------------------
// Linker-written PDB
// ---------------------------------------------------------------------------

/// The PDB that an executable names, if it names one.
pub fn recorded_pdb(bytes: &[u8]) -> (path: Option<String>)
    ensures
        optional_text(path) == match object_pdb_info(bytes@) {
            Some((guid, age, path)) => Some(utf8_lossy(path)),
            None => None,
        },
{
    match image_pdb_info(bytes) {
        Some(info) => Some(lossy_text(info.path.as_slice())),
        None => None,
    }
}

/// The PDB to look for: the one asked for, else the recorded one where that file
/// exists, else the conventional sibling of the executable.
pub fn choose_pdb(
    requested: Option<String>,
    recorded: Option<String>,
    recorded_is_file: bool,
    sibling: String,
) -> (path: String)
    ensures
        path@ == match (requested, recorded) {
            (Some(requested), _) => requested@,
            (None, Some(recorded)) => if recorded_is_file { recorded@ } else { sibling@ },
            (None, None) => sibling@,
        },
{
    match (requested, recorded) {
        (Some(requested), _) => requested,
        (None, Some(recorded)) => if recorded_is_file { recorded } else { sibling },
        (None, None) => sibling,
    }
}

/// Pairs an executable with the PDB that was looked for, which must carry the
/// executable's identity: a PDB of another build is refused, and so is a file that
/// carries none.
pub fn locate_linker_pdb(
    binary: String,
    identity: String,
    symbol_file: String,
    symbol_file_is_file: bool,
    pdb_identity: Option<String>,
) -> (split: Result<DebugSplit, DebugSplitError>)
    ensures
        match split {
            Ok(split) => symbol_file_is_file && optional_text(pdb_identity) == Some(identity@)
                && split.spec_binary() == binary@ && split.spec_symbol_file() == symbol_file@ && split.spec_identity() == identity@
                && split.spec_mechanism() == SplitMechanism::LinkerPdb,
            Err(DebugSplitError::SymbolFileMissing { path }) => !symbol_file_is_file && path@
                == symbol_file@,
            Err(error) => symbol_file_is_file && optional_text(pdb_identity) != Some(identity@)
                && error.is_incomplete(
                SplitMechanism::LinkerPdb,
                "the .pdb's build identity does not match the binary"@,
            ),
        },
{
    if !symbol_file_is_file {
        return Err(DebugSplitError::SymbolFileMissing { path: symbol_file });
    }
    let matches = match &pdb_identity {
        Some(found) => same_text(found.as_str(), identity.as_str()),
        None => false,
    };
    if !matches {
        return Err(
            incomplete(
                SplitMechanism::LinkerPdb,
                "the .pdb's build identity does not match the binary",
            ),
        );
    }
    Ok(DebugSplit::assemble(binary, symbol_file, SplitMechanism::LinkerPdb, identity))
}

// ---------------------------------------------------------------------------
// What the models promise
// ---------------------------------------------------------------------------

/// A pair is whole only if the debug information has left the binary for a symbol file of the
/// same build, to which the binary's link leads by name and checksum; and a pair that falls
/// short in one respect alone is refused for that one.
pub proof fn whole_pairs_alone_have_no_fault(
    binary_has_debug: bool,
    symbols_have_debug: bool,
    found: Option<Seq<char>>,
    identity: Seq<char>,
    link: Option<(Seq<char>, u32)>,
    name: Seq<char>,
    crc: u32,
    other: (Seq<char>, u32),
)
    ensures
        gnu_pair_fault(
            binary_has_debug,
            symbols_have_debug,
            found,
            identity,
            link,
            name,
            crc,
        ) is None <==> {
            &&& !binary_has_debug
            &&& symbols_have_debug
            &&& found == Some(identity)
            &&& link == Some((name, crc))
        },
        gnu_pair_fault(true, true, Some(identity), identity, Some((name, crc)), name, crc) == Some(
            "the stripped binary still carries DWARF; the debug info was duplicated, not moved"@,
        ),
        gnu_pair_fault(false, false, Some(identity), identity, Some((name, crc)), name, crc)
            == Some("the symbol file carries no DWARF, so it can resolve nothing"@),
        found != Some(identity) ==> gnu_pair_fault(
            false,
            true,
            found,
            identity,
            Some((name, crc)),
            name,
            crc,
        ) == Some("the symbol file's build identity does not match the binary"@),
        gnu_pair_fault(false, true, Some(identity), identity, None, name, crc) == Some(
            "the stripped binary has no .gnu_debuglink section"@,
        ),
        other.0 != name ==> gnu_pair_fault(
            false,
            true,
            Some(identity),
            identity,
            Some((other.0, crc)),
            name,
            crc,
        ) == Some("the .gnu_debuglink names a different file than the symbol file produced"@),
        other.1 != crc ==> gnu_pair_fault(
            false,
            true,
            Some(identity),
            identity,
            Some((name, other.1)),
            name,
            crc,
        ) == Some("the .gnu_debuglink CRC-32 does not match the symbol file's bytes"@),
{
}

/// A bundle is whole only if it holds debug information of the same build.
pub proof fn whole_bundles_alone_have_no_fault(
    has_debug: bool,
    found: Option<Seq<char>>,
    identity: Seq<char>,
)
    ensures
        dsym_pair_fault(has_debug, found, identity) is None <==> has_debug && found == Some(
            identity,
        ),
        dsym_pair_fault(false, found, identity) == Some(
            "the .dSYM bundle carries no DWARF, so it can resolve nothing"@,
        ),
        found != Some(identity) ==> dsym_pair_fault(true, found, identity) == Some(
            "the .dSYM bundle's UUID does not match the binary"@,
        ),
{
}

/// Of a path below a directory, the name is the last one, the directory the rest; and a link to
/// a symbol file beside the binary is its name alone.
pub proof fn names_and_directories_make_up_paths(directory: Seq<char>, name: Seq<char>)
    requires
        is_plain_name(name),
    ensures
        name_of(joined(directory, name)) == name,
        name_of(name) == name,
        ends_in_a_name(directory) ==> directory_of(joined(directory, name)) == directory,
        directory_of(name) == "."@,
        ends_in_a_name(directory) ==> debuglink_option(joined(directory, name), directory)
            == "--add-gnu-debuglink="@ + name,
        ends_in_a_name(directory) ==> debuglink_option(
            joined(directory, name),
            directory + seq!['/'],
        ) == "--add-gnu-debuglink="@ + name,
        ends_in_a_name(directory) ==> debuglink_option(
            joined(directory, name),
            joined(directory, name),
        ) == "--add-gnu-debuglink="@ + joined(directory, name),
{
    a_joined_name_is_the_last_component(directory, name);
    a_joined_name_is_the_last_component(Seq::empty(), name);
    assert(joined(Seq::empty(), name) =~= name) by {
        assert(name.contains(name[0]));
    }
    if ends_in_a_name(directory) {
        idle_ends_do_not_count(directory, name, name);
    }
}

proof fn lemma_fixed_names_are_plain()
    ensures
        is_plain_name("Contents"@),
        is_plain_name("Resources"@),
        is_plain_name("DWARF"@),
{
    reveal_strlit("Contents");
    reveal_strlit("Resources");
    reveal_strlit("DWARF");
    assert("Contents"@.len() == 8 && "Resources"@.len() == 9 && "DWARF"@.len() == 5);
}

proof fn lemma_four_pushed(
    list: Seq<Seq<char>>,
    first: Seq<char>,
    second: Seq<char>,
    third: Seq<char>,
    fourth: Seq<char>,
)
    ensures
        list.push(first).push(second).push(third).push(fourth) == list + seq![
            first,
            second,
            third,
            fourth,
        ],
{
    assert(list.push(first).push(second).push(third).push(fourth) =~= list + seq![
        first,
        second,
        third,
        fourth,
    ]);
}

/// The binary inside a bundle lies three directories down, under the name of the binary that
/// the bundle is for.
pub proof fn bundles_hold_the_binary_three_directories_down(
    bundle: Seq<char>,
    directory: Seq<char>,
    name: Seq<char>,
)
    requires
        is_plain_name(name),
    ensures
        ({
            let inside = dwarf_binary(bundle, joined(directory, name));
            components(inside, inside.len()) == components(bundle, bundle.len()) + seq![
                "Contents"@,
                "Resources"@,
                "DWARF"@,
                name,
            ]
        }),
{
    lemma_fixed_names_are_plain();
    a_joined_name_is_the_last_component(directory, name);
    let first = joined(bundle, "Contents"@);
    let second = joined(first, "Resources"@);
    let third = joined(second, "DWARF"@);
    a_joined_name_is_the_last_component(bundle, "Contents"@);
    a_joined_name_is_the_last_component(first, "Resources"@);
    a_joined_name_is_the_last_component(second, "DWARF"@);
    a_joined_name_is_the_last_component(third, name);
    lemma_four_pushed(
        components(bundle, bundle.len()),
        "Contents"@,
        "Resources"@,
        "DWARF"@,
        name,
    );
}

/// A question is about one module, known by the pair's own identity and found at the image
/// that resolves it, and about one frame in it.
pub proof fn questions_name_the_pair(pair: DebugSplit, first: u64, second: u64)
    ensures
        ({
            let question = pair.spec_question(first);
            &&& question.modules.len() == 1
            &&& question.modules[0].debug_id == Some(pair.spec_identity())
            &&& question.modules[0].path_hint == Some(pair.spec_resolution_image())
            &&& question.modules[0].name == pair.spec_module_name()
            &&& question.threads.len() == 1
            &&& question.threads[0].frames.len() == 1
            &&& question.threads[0].frames[0].module_index == 0
            &&& question.threads[0].frames[0].relative_address == first
            &&& question.format == CaptureFormat::CooperativeFrames
        }),
        pair.spec_question(first) == pair.spec_question(second) <==> first == second,
        pair.spec_mechanism() == SplitMechanism::GnuDebugLink ==> pair.spec_resolution_image()
            == pair.spec_symbol_file(),
        pair.spec_mechanism() == SplitMechanism::LinkerPdb ==> pair.spec_resolution_image()
            == pair.spec_binary(),
{
    let one = pair.spec_question(first);
    let two = pair.spec_question(second);
    if one == two {
        assert(one.threads[0].frames[0] == two.threads[0].frames[0]);
    }
}

/// An answer names a function only where its first module is resolved and its first frame
/// carries that very name; a line is told only together with its file.
pub proof fn answers_name_a_function_in_full(
    report: SymbolReportModel,
    function: Seq<char>,
    pair: DebugSplit,
)
    ensures
        names_function(report, function) <==> {
            &&& report.modules.len() > 0
            &&& report.modules[0].status == ModuleSymbolStatus::Resolved
            &&& report.threads.len() > 0
            &&& report.threads[0].frames.len() > 0
            &&& report.threads[0].frames[0].function == Some(function)
        },
        answered_line(report) is Some <==> {
            &&& report.threads.len() > 0
            &&& report.threads[0].frames.len() > 0
            &&& report.threads[0].frames[0].file is Some
            &&& report.threads[0].frames[0].line is Some
        },
        answered_line(report) is Some ==> {
            &&& report.threads[0].frames[0].file == Some(answered_line(report)->Some_0.0)
            &&& report.threads[0].frames[0].line == Some(answered_line(report)->Some_0.1)
        },
        pair.spec_mechanism() != SplitMechanism::LinkerPdb && pair.spec_answered_by_pair(report)
            ==> report.modules.len() > 0 && report.modules[0].symbol_file == Some(
            pair.spec_resolution_image(),
        ),
        report.modules.len() > 0 && report.modules[0].symbol_file == Some(
            pair.spec_resolution_image(),
        ) ==> pair.spec_answered_by_pair(report),
{
}

/// The symbol file that was asked for comes first, then the recorded one if it is there, then
/// the one beside the binary.
pub proof fn requested_symbols_come_first(
    requested: Option<String>,
    recorded: Option<String>,
    recorded_is_file: bool,
    sibling: String,
    path: String,
)
    requires
        call_ensures(choose_pdb, (requested, recorded, recorded_is_file, sibling), path),
    ensures
        requested is Some ==> path@ == requested->Some_0@,
        requested is None && recorded is Some && recorded_is_file ==> path@ == recorded->Some_0@,
        requested is None && (recorded is None || !recorded_is_file) ==> path@ == sibling@,
{
}

/// Images up to a gigabyte are inspected.
pub proof fn images_are_inspected_up_to_a_limit(
    path: &str,
    length: u64,
    admitted: Result<(), DebugSplitError>,
)
    requires
        call_ensures(admit_image, (path, length), admitted),
    ensures
        admitted is Ok <==> length <= 1024 * 1024 * 1024,
        admitted is Err ==> admitted->Err_0 is ImageTooLarge,
{
}

/// A verdict that succeeds is of the function and the place that were asked about, and comes
/// from the pair; one of another name is never taken for it.
pub proof fn verdicts_answer_the_question(
    split: &DebugSplit,
    function: &str,
    offset: u64,
    report: &SymbolReport,
    verdict: Result<VerifiedResolution, DebugSplitError>,
)
    requires
        call_ensures(DebugSplit::judge, (split, function, offset, report), verdict),
    ensures
        verdict is Ok ==> {
            &&& verdict->Ok_0.spec_function() == function@
            &&& verdict->Ok_0.spec_module_offset() == offset
            &&& report.model().threads.len() > 0
            &&& report.model().threads[0].frames.len() > 0
            &&& report.model().threads[0].frames[0].function == Some(function@)
            &&& report.model().modules.len() > 0
            &&& report.model().modules[0].status == ModuleSymbolStatus::Resolved
            &&& split.spec_mechanism() != SplitMechanism::LinkerPdb
                ==> report.model().modules[0].symbol_file == Some(split.spec_resolution_image())
        },
        report.model().threads.len() == 0 ==> verdict is Err,
        report.model().modules.len() == 0 ==> verdict is Err,
{
}

/// A pair is sound only where both files can be read, the debug information is in the symbol file
/// alone, that file is of the build that was split, and the binary's link leads to it by its name
/// and by the checksum of all its bytes.
pub proof fn sound_pairs_belong_together(
    split: &DebugSplit,
    binary: &[u8],
    symbols: &[u8],
    sound: Result<(), DebugSplitError>,
)
    requires
        call_ensures(inspect_gnu_debuglink, (split, binary, symbols), sound),
    ensures
        sound is Ok <==> {
            &&& object_fault(binary@) is None
            &&& object_fault(symbols@) is None
            &&& !image_has_debug_info(binary@)
            &&& image_has_debug_info(symbols@)
            &&& image_identity(symbols@) == Some(split.spec_identity())
            &&& object_debuglink(binary@) is Some
            &&& utf8_lossy(object_debuglink(binary@)->Some_0.0) == name_of(split.spec_symbol_file())
            &&& object_debuglink(binary@)->Some_0.1 == crc32_of(symbols@)
        },
        sound is Err && object_fault(binary@) is Some ==> sound->Err_0 is UnreadableImage,
        sound is Err && object_fault(binary@) is None && object_fault(symbols@) is None
            ==> sound->Err_0 is IncompleteSplit,
{
}

/// A bundle is sound only where the binary inside it can be read, carries debug information, and
/// is of the build that was split.
pub proof fn sound_bundles_belong_to_their_binary(
    split: &DebugSplit,
    dwarf: Option<&[u8]>,
    sound: Result<(), DebugSplitError>,
)
    requires
        call_ensures(inspect_dsym_bundle, (split, dwarf), sound),
    ensures
        sound is Ok <==> {
            &&& dwarf is Some
            &&& object_fault(dwarf->Some_0@) is None
            &&& image_has_debug_info(dwarf->Some_0@)
            &&& image_identity(dwarf->Some_0@) == Some(split.spec_identity())
        },
{
}

/// A binary is split only where it can be read, carries what is to be split out, and has an
/// identity to find it by again, which is then the answer.
pub proof fn splits_start_from_identified_binaries(
    binary: &str,
    bytes: &[u8],
    gnu: Result<String, DebugSplitError>,
    other: Result<String, DebugSplitError>,
)
    requires
        call_ensures(admit_gnu_split, (binary, bytes), gnu),
        call_ensures(admit_identified, (binary, bytes), other),
    ensures
        other is Ok <==> object_fault(bytes@) is None && image_identity(bytes@) is Some,
        gnu is Ok <==> other is Ok && image_has_debug_info(bytes@),
        other is Ok ==> image_identity(bytes@) == Some(other->Ok_0@),
        gnu is Ok ==> gnu->Ok_0@ == other->Ok_0@,
        object_fault(bytes@) is None && !image_has_debug_info(bytes@) ==> gnu is Err && gnu->Err_0
            is DebugInfoMissing,
        object_fault(bytes@) is None && image_has_debug_info(bytes@) && other is Err ==> gnu is Err
            && gnu->Err_0 is BuildIdentityMissing && other->Err_0 is BuildIdentityMissing,
{
}

/// A PDB is taken for a binary's only where it is there and is of the same build.
pub proof fn only_matching_pdbs_are_taken(
    binary: String,
    identity: String,
    symbol_file: String,
    is_file: bool,
    found: Option<String>,
    split: Result<DebugSplit, DebugSplitError>,
)
    requires
        call_ensures(locate_linker_pdb, (binary, identity, symbol_file, is_file, found), split),
    ensures
        split is Ok <==> is_file && found is Some && found->Some_0@ == identity@,
        !is_file ==> split is Err && split->Err_0 is SymbolFileMissing,
        split is Ok ==> split->Ok_0.spec_binary() == binary@ && split->Ok_0.spec_symbol_file()
            == symbol_file@,
{
}

} // verus!
