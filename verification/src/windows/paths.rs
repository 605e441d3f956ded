//! Paths as the Windows host reads them: a prefix, a root, and names between
//! separators.
//!
//! Both `\` and `/` separate names, and empty names and `.` carry no meaning, except
//! for a `.` at the very front. After `\\?\` only `\` separates, and `.` is a name
//! like any other.
use vstd::prelude::*;
use vstd::string::StringExecFns;

use crate::strings::{chars_of, push_char, text_between};

verus! {

/// What a path starts with.
#[derive(Clone, Copy, Debug, PartialEq, Eq, Structural)]
pub enum PrefixKind {
    Plain,
    /// `C:`
    Disk,
    /// `\\server\share`
    Share,
    /// `\\.\name`
    Device,
    /// `\\?\C:`
    VerbatimDisk,
    /// `\\?\UNC\server\share`
    VerbatimShare,
    /// `\\?\name`
    Verbatim,
}

/// The prefix of a path: its kind, up to two names, and how much of the path it is.
/// The letter of a drive stands in upper case.
pub struct PrefixModel {
    pub kind: PrefixKind,
    pub first: Seq<u32>,
    pub second: Seq<u32>,
    pub len: nat,
}

/// What counts when two paths are compared.
pub struct PathModel {
    pub kind: PrefixKind,
    pub first: Seq<u32>,
    pub second: Seq<u32>,
    pub rooted: bool,
    pub names: Seq<Seq<u32>>,
}

/// A path taken apart.
#[derive(Debug)]
pub struct WindowsPath {
    kind: PrefixKind,
    first: Vec<u32>,
    second: Vec<u32>,
    rooted: bool,
    names: Vec<Vec<u32>>,
}

impl View for WindowsPath {
    type V = PathModel;

    closed spec fn view(&self) -> PathModel {
        PathModel {
            kind: self.kind,
            first: self.first@,
            second: self.second@,
            rooted: self.rooted,
            names: unit_lists(self.names@),
        }
    }
}

pub open spec fn unit_lists(lists: Seq<Vec<u32>>) -> Seq<Seq<u32>> {
    lists.map_values(|list: Vec<u32>| list@)
}

/// A text as numbers.
pub open spec fn text_units(text: Seq<char>) -> Seq<u32> {
    text.map_values(|c: char| c as u32)
}

/// UTF-16 as numbers.
pub open spec fn wide_units(units: Seq<u16>) -> Seq<u32> {
    units.map_values(|unit: u16| unit as u32)
}

pub open spec fn is_separator(unit: u32) -> bool {
    unit == 92 || unit == 47
}

pub open spec fn is_letter(unit: u32) -> bool {
    97 <= unit <= 122 || 65 <= unit <= 90
}

pub open spec fn upper_letter(unit: u32) -> u32 {
    if 97 <= unit <= 122 { (unit - 32) as u32 } else { unit }
}

// ---------------------------------------------------------------------------
// The prefix
// ---------------------------------------------------------------------------

/// Where the name that starts at `at` ends: at the next separator, which can only be
/// `\` in a verbatim path.
pub open spec fn name_stop(path: Seq<u32>, at: nat, verbatim: bool) -> nat
    decreases path.len() - at,
{
    if at >= path.len() || path[at as int] == 92 || (path[at as int] == 47 && !verbatim) {
        at
    } else {
        name_stop(path, at + 1, verbatim)
    }
}

/// The letter of the drive at `at`.
pub open spec fn drive_at(path: Seq<u32>, at: nat) -> Option<u32> {
    if at + 1 < path.len() && is_letter(path[at as int]) && path[(at + 1) as int] == 58 {
        Some(upper_letter(path[at as int]))
    } else {
        None
    }
}

/// A server, then a share, from `at` on.
pub open spec fn share_at(path: Seq<u32>, at: nat, verbatim: bool) -> PrefixModel {
    let kind = if verbatim { PrefixKind::VerbatimShare } else { PrefixKind::Share };
    let middle = name_stop(path, at, verbatim);
    let server = path.subrange(at as int, middle as int);
    if middle >= path.len() {
        PrefixModel { kind, first: server, second: Seq::empty(), len: middle }
    } else {
        let end = name_stop(path, middle + 1, verbatim);
        PrefixModel {
            kind,
            first: server,
            second: path.subrange((middle + 1) as int, end as int),
            len: if end > middle + 1 { end } else { middle },
        }
    }
}

/// A name from `at` on.
pub open spec fn named_at(path: Seq<u32>, at: nat, kind: PrefixKind) -> PrefixModel {
    let end = name_stop(path, at, kind == PrefixKind::Verbatim);
    PrefixModel {
        kind,
        first: path.subrange(at as int, end as int),
        second: Seq::empty(),
        len: end,
    }
}

pub open spec fn no_prefix() -> PrefixModel {
    PrefixModel { kind: PrefixKind::Plain, first: Seq::empty(), second: Seq::empty(), len: 0 }
}

pub open spec fn prefix_of(path: Seq<u32>) -> PrefixModel {
    let n = path.len();
    if n >= 2 && is_separator(path[0]) && is_separator(path[1]) {
        if n >= 4 && path[0] == 92 && path[1] == 92 && path[2] == 63 && path[3] == 92 {
            if n >= 8 && path[4] == 85 && path[5] == 78 && path[6] == 67 && is_separator(path[7]) {
                share_at(path, 8, true)
            } else {
                match drive_at(path, 4) {
                    Some(letter) if n == 6 || is_separator(path[6]) => PrefixModel {
                        kind: PrefixKind::VerbatimDisk,
                        first: seq![letter],
                        second: Seq::empty(),
                        len: 6,
                    },
                    _ => named_at(path, 4, PrefixKind::Verbatim),
                }
            }
        } else if n >= 4 && path[2] == 46 && is_separator(path[3]) {
            named_at(path, 4, PrefixKind::Device)
        } else {
            let share = share_at(path, 2, false);
            if share.first.len() > 0 && share.second.len() > 0 { share } else { no_prefix() }
        }
    } else {
        match drive_at(path, 0) {
            Some(letter) => PrefixModel {
                kind: PrefixKind::Disk,
                first: seq![letter],
                second: Seq::empty(),
                len: 2,
            },
            None => no_prefix(),
        }
    }
}

pub open spec fn is_verbatim(kind: PrefixKind) -> bool {
    match kind {
        PrefixKind::VerbatimDisk | PrefixKind::VerbatimShare | PrefixKind::Verbatim => true,
        _ => false,
    }
}

// ---------------------------------------------------------------------------
// The names
// ---------------------------------------------------------------------------

/// How a path is to be cut: where its names start, and whether it is verbatim.
pub struct Cut {
    pub body: nat,
    pub verbatim: bool,
}

pub open spec fn has_root(path: Seq<u32>) -> bool {
    let len = prefix_of(path).len;
    len < path.len() && is_separator(path[len as int])
}

pub open spec fn cut_of(path: Seq<u32>) -> Cut {
    Cut {
        body: prefix_of(path).len + if has_root(path) { 1nat } else { 0nat },
        verbatim: is_verbatim(prefix_of(path).kind),
    }
}

pub open spec fn separates(unit: u32, verbatim: bool) -> bool {
    unit == 92 || (unit == 47 && !verbatim)
}

/// Whether the unit before `end` is a `.` that carries no meaning.
pub open spec fn is_idle_dot(path: Seq<u32>, cut: Cut, end: nat) -> bool {
    &&& !cut.verbatim
    &&& path[end - 1] == 46
    &&& if end - 1 == cut.body { cut.body > 0 } else { separates(path[end - 2], false) }
}

/// Where the last meaningful name of `path[..end]` ends.
pub open spec fn meaningful_stop(path: Seq<u32>, cut: Cut, end: nat) -> nat
    decreases end,
{
    if end <= cut.body {
        end
    } else if separates(path[end - 1], cut.verbatim) || is_idle_dot(path, cut, end) {
        meaningful_stop(path, cut, (end - 1) as nat)
    } else {
        end
    }
}

/// Where the name that ends at `end` starts.
pub open spec fn name_from(path: Seq<u32>, cut: Cut, end: nat) -> nat
    decreases end,
{
    if end <= cut.body || separates(path[end - 1], cut.verbatim) {
        end
    } else {
        name_from(path, cut, (end - 1) as nat)
    }
}

/// The names of `path[..end]`.
pub open spec fn names_of(path: Seq<u32>, cut: Cut, end: nat) -> Seq<Seq<u32>>
    decreases end,
{
    let last = meaningful_stop(path, cut, end);
    let start = name_from(path, cut, last);
    if last <= cut.body || start >= last || last > end {
        Seq::empty()
    } else {
        names_of(path, cut, start).push(path.subrange(start as int, last as int))
    }
}

/// What a path comes to. A share and a device have a root even where none is
/// written.
pub open spec fn path_model(path: Seq<u32>) -> PathModel {
    let prefix = prefix_of(path);
    PathModel {
        kind: prefix.kind,
        first: prefix.first,
        second: prefix.second,
        rooted: has_root(path) || prefix.kind == PrefixKind::Share || prefix.kind
            == PrefixKind::Device,
        names: names_of(path, cut_of(path), path.len()),
    }
}

/// Where the last name of a path is, unless there is none, or it is `.` or `..`.
pub open spec fn last_span(path: Seq<u32>) -> Option<(nat, nat)> {
    let end = meaningful_stop(path, cut_of(path), path.len());
    let start = name_from(path, cut_of(path), end);
    let name = path.subrange(start as int, end as int);
    if end <= cut_of(path).body || name == seq![46u32] || name == seq![46u32, 46u32] {
        None
    } else {
        Some((start, end))
    }
}

/// The last name of a path, unless there is none, or it is `.` or `..`.
pub open spec fn windows_name(path: Seq<char>) -> Option<Seq<char>> {
    match last_span(text_units(path)) {
        Some((start, end)) => Some(path.subrange(start as int, end as int)),
        None => None,
    }
}

/// Whether a path is a drive and nothing else.
pub open spec fn is_bare_drive(path: Seq<u32>) -> bool {
    prefix_of(path).kind == PrefixKind::Disk && prefix_of(path).len == path.len()
}

/// Where the names of `path[..end]` are.
pub open spec fn spans_of(path: Seq<u32>, cut: Cut, end: nat) -> Seq<(nat, nat)>
    decreases end,
{
    let last = meaningful_stop(path, cut, end);
    let start = name_from(path, cut, last);
    if last <= cut.body || start >= last || last > end {
        Seq::empty()
    } else {
        spans_of(path, cut, start).push((start, last))
    }
}

/// Parts of a path, each behind a separator.
pub open spec fn spelled<T>(path: Seq<T>, spans: Seq<(nat, nat)>, separator: T) -> Seq<T>
    decreases spans.len(),
{
    if spans.len() == 0 {
        Seq::empty()
    } else {
        spelled(path, spans.drop_last(), separator) + seq![separator] + path.subrange(
            spans.last().0 as int,
            spans.last().1 as int,
        )
    }
}

/// A plain name below `path[..end]`. A verbatim path is spelled anew, with one separator
/// before each name; to another one a separator is added where it needs one, which a bare
/// drive does not.
pub open spec fn windows_joined(path: Seq<char>, end: nat, name: Seq<char>) -> Seq<char> {
    let base = path.take(end as int);
    let units = text_units(path);
    if cut_of(units).verbatim {
        path.take(prefix_of(units).len as int) + spelled(
            path,
            spans_of(units, cut_of(units), end),
            '\\',
        ) + seq!['\\'] + name
    } else if end == 0 || base.last() == '\\' || base.last() == '/' || is_bare_drive(
        text_units(base),
    ) {
        base + name
    } else {
        base + seq!['\\'] + name
    }
}

/// A path whose last name is replaced, or added where there is none.
pub open spec fn windows_renamed(path: Seq<char>, name: Seq<char>) -> Seq<char> {
    let units = text_units(path);
    match last_span(units) {
        Some((start, _)) => windows_joined(
            path,
            meaningful_stop(units, cut_of(units), start),
            name,
        ),
        None => windows_joined(path, path.len(), name),
    }
}

pub open spec fn is_plain(name: Seq<u32>) -> bool {
    name != seq![46u32] && name != seq![46u32, 46u32]
}

/// Names after further ones: `.` changes nothing, and `..` takes the last plain name back.
pub open spec fn followed(names: Seq<Seq<u32>>, more: Seq<Seq<u32>>) -> Seq<Seq<u32>>
    decreases more.len(),
{
    if more.len() == 0 {
        names
    } else {
        let before = followed(names, more.drop_last());
        if is_plain(more.last()) {
            before.push(more.last())
        } else if more.last() == seq![46u32, 46u32] && before.len() > 0 && is_plain(
            before.last(),
        ) {
            before.drop_last()
        } else {
            before
        }
    }
}

/// Names, each behind a separator.
pub open spec fn listed(names: Seq<Seq<u32>>) -> Seq<u32>
    decreases names.len(),
{
    if names.len() == 0 {
        Seq::empty()
    } else {
        listed(names.drop_last()) + seq![92u32] + names.last()
    }
}

/// What `name` is, seen from `base`: itself where it has a prefix of its own, else what
/// it names below the base, or below the base's prefix where it starts at the root.
pub open spec fn joined_units(base: Seq<u32>, name: Seq<u32>) -> Seq<u32> {
    let prefix = prefix_of(base);
    if prefix_of(name).kind != PrefixKind::Plain {
        name
    } else if is_verbatim(prefix.kind) && name.len() > 0 {
        let start = if has_root(name) {
            Seq::empty()
        } else {
            names_of(base, cut_of(base), base.len())
        };
        let names = followed(start, names_of(name, cut_of(name), name.len()));
        base.take(prefix.len as int) + if names.len() == 0 && (has_root(base) || has_root(name)) {
            seq![92u32]
        } else {
            listed(names)
        }
    } else if has_root(name) {
        base.take(prefix.len as int) + name
    } else if base.len() == 0 || is_separator(base.last()) || is_bare_drive(base) {
        base + name
    } else {
        base + seq![92u32] + name
    }
}

// ---------------------------------------------------------------------------
// Taking paths apart
// ---------------------------------------------------------------------------

pub fn units_of_text(text: &str) -> (units: Vec<u32>)
    ensures
        units@ == text_units(text@),
{
    let chars = chars_of(text);
    let mut units: Vec<u32> = Vec::new();
    for at in 0..chars.len()
        invariant
            chars@ == text@,
            units@ == text_units(text@).take(at as int),
    {
        units.push(chars[at] as u32);
        assert(units@ =~= text_units(text@).take(at + 1));
    }
    assert(units@ =~= text_units(text@));
    units
}

pub fn units_of_wide(wide: &Vec<u16>) -> (units: Vec<u32>)
    ensures
        units@ == wide_units(wide@),
{
    let mut units: Vec<u32> = Vec::new();
    for at in 0..wide.len()
        invariant
            units@ == wide_units(wide@).take(at as int),
    {
        units.push(wide[at] as u32);
        assert(units@ =~= wide_units(wide@).take(at + 1));
    }
    assert(units@ =~= wide_units(wide@));
    units
}

struct Prefix {
    kind: PrefixKind,
    first: Vec<u32>,
    second: Vec<u32>,
    len: usize,
}

impl Prefix {
    spec fn model(&self) -> PrefixModel {
        PrefixModel {
            kind: self.kind,
            first: self.first@,
            second: self.second@,
            len: self.len as nat,
        }
    }
}

fn slice_of(path: &Vec<u32>, from: usize, to: usize) -> (units: Vec<u32>)
    requires
        from <= to <= path@.len(),
    ensures
        units@ == path@.subrange(from as int, to as int),
{
    let mut units: Vec<u32> = Vec::new();
    for at in from..to
        invariant
            from <= to <= path@.len(),
            units@ == path@.subrange(from as int, at as int),
    {
        units.push(path[at]);
        assert(units@ =~= path@.subrange(from as int, at + 1));
    }
    units
}

fn find_name_stop(path: &Vec<u32>, from: usize, verbatim: bool) -> (end: usize)
    requires
        from <= path@.len(),
    ensures
        end == name_stop(path@, from as nat, verbatim),
        from <= end <= path@.len(),
{
    let mut at: usize = from;
    while at < path.len() && path[at] != 92 && (path[at] != 47 || verbatim)
        invariant
            from <= at <= path@.len(),
            name_stop(path@, from as nat, verbatim) == name_stop(path@, at as nat, verbatim),
        decreases path@.len() - at,
    {
        at += 1;
    }
    at
}

fn find_drive(path: &Vec<u32>, at: usize) -> (letter: Option<u32>)
    requires
        at <= path@.len(),
    ensures
        letter == drive_at(path@, at as nat),
{
    if path.len() - at < 2 || path[at + 1] != 58 {
        return None;
    }
    let unit = path[at];
    if 97 <= unit && unit <= 122 {
        Some(unit - 32)
    } else if 65 <= unit && unit <= 90 {
        Some(unit)
    } else {
        None
    }
}

fn find_share(path: &Vec<u32>, at: usize, verbatim: bool) -> (prefix: Prefix)
    requires
        at <= path@.len(),
    ensures
        prefix.model() == share_at(path@, at as nat, verbatim),
        at <= prefix.len <= path@.len(),
{
    let kind = if verbatim { PrefixKind::VerbatimShare } else { PrefixKind::Share };
    let middle = find_name_stop(path, at, verbatim);
    let first = slice_of(path, at, middle);
    if middle >= path.len() {
        let prefix = Prefix { kind, first, second: Vec::new(), len: middle };
        assert(prefix.second@ =~= Seq::<u32>::empty());
        return prefix;
    }
    let end = find_name_stop(path, middle + 1, verbatim);
    let second = slice_of(path, middle + 1, end);
    Prefix { kind, first, second, len: if end > middle + 1 { end } else { middle } }
}

fn find_named(path: &Vec<u32>, at: usize, kind: PrefixKind) -> (prefix: Prefix)
    requires
        at <= path@.len(),
    ensures
        prefix.model() == named_at(path@, at as nat, kind),
        at <= prefix.len <= path@.len(),
{
    let end = find_name_stop(path, at, kind == PrefixKind::Verbatim);
    let prefix = Prefix { kind, first: slice_of(path, at, end), second: Vec::new(), len: end };
    assert(prefix.second@ =~= Seq::<u32>::empty());
    prefix
}

fn short_prefix(kind: PrefixKind, letter: Option<u32>, len: usize) -> (prefix: Prefix)
    ensures
        prefix.model() == (PrefixModel {
            kind,
            first: match letter {
                Some(letter) => seq![letter],
                None => Seq::empty(),
            },
            second: Seq::empty(),
            len: len as nat,
        }),
{
    let mut first: Vec<u32> = Vec::new();
    assert(first@ =~= Seq::<u32>::empty());
    if let Some(letter) = letter {
        first.push(letter);
        assert(first@ =~= seq![letter]);
    }
    let prefix = Prefix { kind, first, second: Vec::new(), len };
    assert(prefix.second@ =~= Seq::<u32>::empty());
    prefix
}

fn separator(unit: u32) -> (is: bool)
    ensures
        is == is_separator(unit),
{
    unit == 92 || unit == 47
}

fn find_prefix(path: &Vec<u32>) -> (prefix: Prefix)
    ensures
        prefix.model() == prefix_of(path@),
        prefix.len <= path@.len(),
{
    let n = path.len();
    if n >= 2 && separator(path[0]) && separator(path[1]) {
        if n >= 4 && path[0] == 92 && path[1] == 92 && path[2] == 63 && path[3] == 92 {
            if n >= 8 && path[4] == 85 && path[5] == 78 && path[6] == 67 && separator(path[7]) {
                return find_share(path, 8, true);
            }
            if let Some(letter) = find_drive(path, 4) {
                if n == 6 || separator(path[6]) {
                    return short_prefix(PrefixKind::VerbatimDisk, Some(letter), 6);
                }
            }
            return find_named(path, 4, PrefixKind::Verbatim);
        }
        if n >= 4 && path[2] == 46 && separator(path[3]) {
            return find_named(path, 4, PrefixKind::Device);
        }
        let share = find_share(path, 2, false);
        if share.first.len() > 0 && share.second.len() > 0 {
            return share;
        }
        return short_prefix(PrefixKind::Plain, None, 0);
    }
    match find_drive(path, 0) {
        Some(letter) => short_prefix(PrefixKind::Disk, Some(letter), 2),
        None => short_prefix(PrefixKind::Plain, None, 0),
    }
}

fn verbatim_kind(kind: PrefixKind) -> (verbatim: bool)
    ensures
        verbatim == is_verbatim(kind),
{
    match kind {
        PrefixKind::VerbatimDisk | PrefixKind::VerbatimShare | PrefixKind::Verbatim => true,
        _ => false,
    }
}

fn find_meaningful_stop(path: &Vec<u32>, body: usize, verbatim: bool, from: usize) -> (end: usize)
    requires
        from <= path@.len(),
    ensures
        end == meaningful_stop(path@, (Cut { body: body as nat, verbatim }), from as nat),
        end <= from,
        end > body ==> !separates(path@[end - 1], verbatim),
{
    let ghost cut = Cut { body: body as nat, verbatim };
    let mut end: usize = from;
    while end > body
        invariant_except_break
            meaningful_stop(path@, cut, from as nat) == meaningful_stop(path@, cut, end as nat),
        invariant
            cut == (Cut { body: body as nat, verbatim }),
            end <= from <= path@.len(),
        ensures
            meaningful_stop(path@, cut, from as nat) == end,
            end > body ==> !separates(path@[end - 1], verbatim),
        decreases end,
    {
        let unit = path[end - 1];
        let separates = unit == 92 || (unit == 47 && !verbatim);
        let idle = !verbatim && unit == 46 && if end - 1 == body {
            body > 0
        } else {
            path[end - 2] == 92 || path[end - 2] == 47
        };
        if !separates && !idle {
            break;
        }
        end -= 1;
    }
    end
}

fn find_name_from(path: &Vec<u32>, body: usize, verbatim: bool, end: usize) -> (start: usize)
    requires
        end <= path@.len(),
    ensures
        start == name_from(path@, (Cut { body: body as nat, verbatim }), end as nat),
        start <= end,
        end > body && !separates(path@[end - 1], verbatim) ==> start < end,
{
    let ghost cut = Cut { body: body as nat, verbatim };
    let mut at: usize = end;
    while at > body && path[at - 1] != 92 && (path[at - 1] != 47 || verbatim)
        invariant
            cut == (Cut { body: body as nat, verbatim }),
            at <= end <= path@.len(),
            name_from(path@, cut, end as nat) == name_from(path@, cut, at as nat),
        decreases at,
    {
        at -= 1;
    }
    at
}

fn list_names(path: &Vec<u32>, body: usize, verbatim: bool, end: usize) -> (names: Vec<Vec<u32>>)
    requires
        end <= path@.len(),
    ensures
        unit_lists(names@) == names_of(path@, (Cut { body: body as nat, verbatim }), end as nat),
    decreases end,
{
    let last = find_meaningful_stop(path, body, verbatim, end);
    let start = find_name_from(path, body, verbatim, last);
    if last <= body {
        let names: Vec<Vec<u32>> = Vec::new();
        assert(unit_lists(names@) =~= Seq::<Seq<u32>>::empty());
        return names;
    }
    let mut names = list_names(path, body, verbatim, start);
    let ghost before = unit_lists(names@);
    let name = slice_of(path, start, last);
    names.push(name);
    assert(unit_lists(names@) =~= before.push(name@));
    names
}

/// Takes a path apart.
pub fn take_apart(path: &Vec<u32>) -> (parts: WindowsPath)
    ensures
        parts@ == path_model(path@),
{
    let prefix = find_prefix(path);
    let rooted = prefix.len < path.len() && separator(path[prefix.len]);
    let body: usize = if rooted { prefix.len + 1 } else { prefix.len };
    let names = list_names(path, body, verbatim_kind(prefix.kind), path.len());
    WindowsPath {
        kind: prefix.kind,
        first: prefix.first,
        second: prefix.second,
        rooted: rooted || prefix.kind == PrefixKind::Share || prefix.kind == PrefixKind::Device,
        names,
    }
}

fn same_units(first: &Vec<u32>, second: &Vec<u32>) -> (same: bool)
    ensures
        same == (first@ == second@),
{
    if first.len() != second.len() {
        return false;
    }
    for at in 0..first.len()
        invariant
            first@.len() == second@.len(),
            forall|i: int| 0 <= i < at ==> first@[i] == second@[i],
    {
        if first[at] != second[at] {
            return false;
        }
    }
    assert(first@ =~= second@);
    true
}

impl WindowsPath {
    /// Whether two paths are the same.
    pub fn same(&self, other: &WindowsPath) -> (same: bool)
        ensures
            same == (self@ == other@),
    {
        if self.kind != other.kind || self.rooted != other.rooted || self.names.len()
            != other.names.len() {
            assert(self@.names.len() == self.names@.len());
            assert(other@.names.len() == other.names@.len());
            return false;
        }
        if !same_units(&self.first, &other.first) || !same_units(&self.second, &other.second) {
            return false;
        }
        for at in 0..self.names.len()
            invariant
                self.names@.len() == other.names@.len(),
                forall|i: int|
                    0 <= i < at ==> (#[trigger] self.names@[i])@ == other.names@[i]@,
        {
            if !same_units(&self.names[at], &other.names[at]) {
                assert(self@.names[at as int] != other@.names[at as int]);
                return false;
            }
        }
        assert(self@.names =~= other@.names);
        true
    }
}

/// Whether two texts stand for one path.
pub fn same_windows_path(first: &str, second: &str) -> (same: bool)
    ensures
        same == (path_model(text_units(first@)) == path_model(text_units(second@))),
{
    take_apart(&units_of_text(first)).same(&take_apart(&units_of_text(second)))
}

fn find_last_span(path: &Vec<u32>) -> (span: Option<(usize, usize)>)
    ensures
        match span {
            Some((start, end)) => last_span(path@) == Some((start as nat, end as nat)) && start
                <= end <= path@.len(),
            None => last_span(path@) is None,
        },
{
    let prefix = find_prefix(path);
    let rooted = prefix.len < path.len() && separator(path[prefix.len]);
    let body: usize = if rooted { prefix.len + 1 } else { prefix.len };
    let verbatim = verbatim_kind(prefix.kind);
    let end = find_meaningful_stop(path, body, verbatim, path.len());
    if end <= body {
        return None;
    }
    let start = find_name_from(path, body, verbatim, end);
    let ghost name = path@.subrange(start as int, end as int);
    if end - start == 1 && path[start] == 46 {
        assert(name =~= seq![46u32]);
        return None;
    }
    if end - start == 2 && path[start] == 46 && path[start + 1] == 46 {
        assert(name =~= seq![46u32, 46u32]);
        return None;
    }
    proof {
        if name == seq![46u32] {
            assert(name.len() == 1 && name[0] == 46);
        }
        if name == seq![46u32, 46u32] {
            assert(name.len() == 2 && name[0] == 46 && name[1] == 46);
        }
    }
    Some((start, end))
}

/// The last name of a path.
pub fn windows_file_name(path: &str) -> (name: Option<String>)
    ensures
        match name {
            Some(name) => windows_name(path@) == Some(name@),
            None => windows_name(path@) is None,
        },
{
    match find_last_span(&units_of_text(path)) {
        Some((start, end)) => Some(text_between(&chars_of(path), start, end)),
        None => None,
    }
}

fn bare_drive(path: &Vec<u32>) -> (bare: bool)
    ensures
        bare == is_bare_drive(path@),
{
    let prefix = find_prefix(path);
    prefix.kind == PrefixKind::Disk && prefix.len == path.len()
}

fn list_spans(path: &Vec<u32>, body: usize, verbatim: bool, end: usize) -> (spans: Vec<
    (usize, usize),
>)
    requires
        end <= path@.len(),
    ensures
        span_models(spans@) == spans_of(path@, (Cut { body: body as nat, verbatim }), end as nat),
        forall|i: int|
            0 <= i < spans@.len() ==> (#[trigger] spans@[i]).0 <= spans@[i].1 <= path@.len(),
    decreases end,
{
    let last = find_meaningful_stop(path, body, verbatim, end);
    let start = find_name_from(path, body, verbatim, last);
    if last <= body {
        let spans: Vec<(usize, usize)> = Vec::new();
        assert(span_models(spans@) =~= Seq::<(nat, nat)>::empty());
        return spans;
    }
    let mut spans = list_spans(path, body, verbatim, start);
    let ghost before = span_models(spans@);
    spans.push((start, last));
    assert(span_models(spans@) =~= before.push((start as nat, last as nat)));
    spans
}

spec fn span_models(spans: Seq<(usize, usize)>) -> Seq<(nat, nat)> {
    spans.map_values(|span: (usize, usize)| (span.0 as nat, span.1 as nat))
}

/// A plain name below the front of a path.
fn windows_join(path: &str, end: usize, name: &str) -> (joined: String)
    requires
        end <= path@.len(),
    ensures
        joined@ == windows_joined(path@, end as nat, name@),
{
    let chars = chars_of(path);
    let units = units_of_text(path);
    let prefix = find_prefix(&units);
    if verbatim_kind(prefix.kind) {
        let rooted = prefix.len < units.len() && separator(units[prefix.len]);
        let body: usize = if rooted { prefix.len + 1 } else { prefix.len };
        let spans = list_spans(&units, body, true, end);
        let ghost all = span_models(spans@);
        let mut joined = text_between(&chars, 0, prefix.len);
        let ghost front = joined@;
        assert(front =~= path@.take(prefix.len as int));
        assert(joined@ =~= front + spelled(path@, all.take(0), '\\'));
        for at in 0..spans.len()
            invariant
                chars@ == path@,
                units@.len() == path@.len(),
                all == span_models(spans@),
                forall|i: int|
                    0 <= i < spans@.len() ==> (#[trigger] spans@[i]).0 <= spans@[i].1
                        <= units@.len(),
                joined@ == front + spelled(path@, all.take(at as int), '\\'),
        {
            let (from, to) = spans[at];
            assert(spans@[at as int].0 <= spans@[at as int].1 <= units@.len());
            push_char(&mut joined, '\\');
            joined.append(text_between(&chars, from, to).as_str());
            proof {
                assert(all.take(at + 1).drop_last() =~= all.take(at as int));
                assert(all.take(at + 1).last() == (from as nat, to as nat));
                assert(joined@ =~= front + spelled(path@, all.take(at + 1), '\\'));
            }
        }
        assert(all.take(all.len() as int) =~= all);
        push_char(&mut joined, '\\');
        joined.append(name);
        assert(joined@ =~= windows_joined(path@, end as nat, name@));
        return joined;
    }
    let mut joined = text_between(&chars, 0, end);
    let ghost base = joined@;
    assert(base =~= path@.take(end as int));
    let bare = bare_drive(&units_of_text(joined.as_str()));
    if end > 0 && chars[end - 1] != '\\' && chars[end - 1] != '/' && !bare {
        push_char(&mut joined, '\\');
        assert(joined@ =~= base + seq!['\\']);
    }
    joined.append(name);
    joined
}

/// A path with another last name.
pub fn windows_rename(path: &str, name: &str) -> (renamed: String)
    ensures
        renamed@ == windows_renamed(path@, name@),
{
    let units = units_of_text(path);
    match find_last_span(&units) {
        Some((start, _)) => {
            let prefix = find_prefix(&units);
            let rooted = prefix.len < units.len() && separator(units[prefix.len]);
            let body: usize = if rooted { prefix.len + 1 } else { prefix.len };
            let keep = find_meaningful_stop(&units, body, verbatim_kind(prefix.kind), start);
            windows_join(path, keep, name)
        },
        None => windows_join(path, units.len(), name),
    }
}

fn plain(name: &Vec<u32>) -> (plain: bool)
    ensures
        plain == is_plain(name@),
{
    if name.len() == 1 && name[0] == 46 {
        assert(name@ =~= seq![46u32]);
        return false;
    }
    if name.len() == 2 && name[0] == 46 && name[1] == 46 {
        assert(name@ =~= seq![46u32, 46u32]);
        return false;
    }
    proof {
        if name@ == seq![46u32] {
            assert(name@.len() == 1 && name@[0] == 46);
        }
        if name@ == seq![46u32, 46u32] {
            assert(name@.len() == 2 && name@[0] == 46 && name@[1] == 46);
        }
    }
    true
}

fn follow(names: Vec<Vec<u32>>, more: &Vec<Vec<u32>>) -> (all: Vec<Vec<u32>>)
    ensures
        unit_lists(all@) == followed(unit_lists(names@), unit_lists(more@)),
{
    let ghost start = unit_lists(names@);
    let ghost steps = unit_lists(more@);
    let mut all = names;
    assert(steps.take(0) =~= Seq::<Seq<u32>>::empty());
    for at in 0..more.len()
        invariant
            steps == unit_lists(more@),
            unit_lists(all@) == followed(start, steps.take(at as int)),
    {
        let ghost before = unit_lists(all@);
        let next = &more[at];
        proof {
            assert(steps.take(at + 1).drop_last() =~= steps.take(at as int));
            assert(steps.take(at + 1).last() == next@);
        }
        if plain(next) {
            let piece = slice_of(next, 0, next.len());
            assert(piece@ =~= next@);
            all.push(piece);
            assert(unit_lists(all@) =~= before.push(next@));
        } else if next.len() == 2 && all.len() > 0 && plain(&all[all.len() - 1]) {
            assert(next@ =~= seq![46u32, 46u32]);
            all.pop();
            assert(unit_lists(all@) =~= before.drop_last());
        } else {
            proof {
                if next@ == seq![46u32, 46u32] {
                    assert(next@.len() == 2);
                }
            }
        }
    }
    assert(steps.take(steps.len() as int) =~= steps);
    all
}

/// What a name is, seen from a base.
pub fn join_units(base: &Vec<u32>, name: &Vec<u32>) -> (joined: Vec<u32>)
    ensures
        joined@ == joined_units(base@, name@),
{
    let own = find_prefix(name);
    if own.kind != PrefixKind::Plain {
        let joined = slice_of(name, 0, name.len());
        assert(joined@ =~= name@);
        return joined;
    }
    proof {
        lemma_plain_prefix(name@);
    }
    let prefix = find_prefix(base);
    let from_root = name.len() > 0 && separator(name[0]);
    let rooted = prefix.len < base.len() && separator(base[prefix.len]);
    let body: usize = if rooted { prefix.len + 1 } else { prefix.len };
    let mut joined: Vec<u32> = Vec::new();
    if verbatim_kind(prefix.kind) && name.len() > 0 {
        let start = if from_root {
            let none: Vec<Vec<u32>> = Vec::new();
            assert(unit_lists(none@) =~= Seq::<Seq<u32>>::empty());
            none
        } else {
            list_names(base, body, true, base.len())
        };
        let name_body: usize = if from_root { 1 } else { 0 };
        let more = list_names(name, name_body, false, name.len());
        let names = follow(start, &more);
        let mut front = slice_of(base, 0, prefix.len);
        joined.append(&mut front);
        let ghost head = joined@;
        assert(head =~= base@.take(prefix.len as int));
        if names.len() == 0 && (rooted || from_root) {
            joined.push(92);
            assert(joined@ =~= head + seq![92u32]);
            return joined;
        }
        let ghost all = unit_lists(names@);
        assert(joined@ =~= head + listed(all.take(0)));
        for at in 0..names.len()
            invariant
                all == unit_lists(names@),
                joined@ == head + listed(all.take(at as int)),
        {
            let mut piece = slice_of(&names[at], 0, names[at].len());
            assert(piece@ =~= names@[at as int]@);
            joined.push(92);
            joined.append(&mut piece);
            proof {
                assert(all.take(at + 1).drop_last() =~= all.take(at as int));
                assert(all.take(at + 1).last() == names@[at as int]@);
                assert(joined@ =~= head + listed(all.take(at + 1)));
            }
        }
        assert(all.take(all.len() as int) =~= all);
        return joined;
    }
    let mut tail = slice_of(name, 0, name.len());
    if from_root {
        let mut front = slice_of(base, 0, prefix.len);
        joined.append(&mut front);
        joined.append(&mut tail);
        assert(joined@ =~= base@.take(prefix.len as int) + name@);
        return joined;
    }
    let mut front = slice_of(base, 0, base.len());
    joined.append(&mut front);
    assert(joined@ =~= base@);
    if base.len() > 0 && !separator(base[base.len() - 1]) && !bare_drive(base) {
        joined.push(92);
    }
    joined.append(&mut tail);
    assert(joined@ =~= joined_units(base@, name@));
    joined
}

proof fn lemma_plain_prefix(path: Seq<u32>)
    requires
        prefix_of(path).kind == PrefixKind::Plain,
    ensures
        prefix_of(path) == no_prefix(),
{
}

} // verus!
