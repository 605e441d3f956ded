//! What holds of paths on a Windows drive.
use vstd::prelude::*;

use super::paths::{
    cut_of, followed, has_root, is_idle_dot, is_letter, is_plain, is_separator, joined_units, meaningful_stop, name_from,
    name_stop, names_of, path_model, prefix_of, separates, text_units, upper_letter, windows_name, windows_renamed, Cut, PathModel, PrefixKind,
    PrefixModel,
};

verus! {

/// A directory below the root of a drive, written with no separator and no dot at its end.
pub open spec fn is_drive_directory(path: Seq<char>) -> bool {
    &&& path.len() >= 4
    &&& 'a' <= path[0] <= 'z' || 'A' <= path[0] <= 'Z'
    &&& path[1] == ':'
    &&& path[2] == '\\' || path[2] == '/'
    &&& path.last() != '\\' && path.last() != '/' && path.last() != '.'
}

/// A name that a file can have.
pub open spec fn is_plain_file_name(name: Seq<char>) -> bool {
    &&& name.len() > 0
    &&& !name.contains('\\') && !name.contains('/')
    &&& name != seq!['.'] && name != seq!['.', '.']
}

proof fn lemma_name_from(path: Seq<u32>, cut: Cut, end: nat, len: nat)
    requires
        len <= end <= path.len(),
        cut.body + len <= end,
        forall|i: int| end - len <= i < end ==> !separates(#[trigger] path[i], cut.verbatim),
        end - len <= cut.body || separates(path[end - len - 1], cut.verbatim),
    ensures
        name_from(path, cut, end) == end - len,
    decreases len,
{
    if len > 0 {
        assert(!separates(path[end - 1], cut.verbatim));
        lemma_name_from(path, cut, (end - 1) as nat, (len - 1) as nat);
    }
}

proof fn lemma_shared_stops(first: Seq<u32>, second: Seq<u32>, cut: Cut, end: nat)
    requires
        end <= first.len(),
        end <= second.len(),
        forall|i: int| 0 <= i < end ==> #[trigger] first[i] == second[i],
    ensures
        meaningful_stop(first, cut, end) == meaningful_stop(second, cut, end),
        name_from(first, cut, end) == name_from(second, cut, end),
        meaningful_stop(first, cut, end) <= end,
        name_from(first, cut, end) <= end,
    decreases end,
{
    if end > 0 {
        lemma_shared_stops(first, second, cut, (end - 1) as nat);
    }
}

proof fn lemma_shared_names(first: Seq<u32>, second: Seq<u32>, cut: Cut, end: nat)
    requires
        end <= first.len(),
        end <= second.len(),
        forall|i: int| 0 <= i < end ==> #[trigger] first[i] == second[i],
    ensures
        names_of(first, cut, end) == names_of(second, cut, end),
    decreases end,
{
    lemma_shared_stops(first, second, cut, end);
    let last = meaningful_stop(first, cut, end);
    lemma_shared_stops(first, second, cut, last);
    let start = name_from(first, cut, last);
    if !(last <= cut.body || start >= last || last > end) {
        lemma_shared_names(first, second, cut, start);
        assert(first.subrange(start as int, last as int) =~= second.subrange(
            start as int,
            last as int,
        ));
    }
}

proof fn lemma_unit_of(c: char)
    ensures
        c as u32 == 92 <==> c == '\\',
        c as u32 == 47 <==> c == '/',
        c as u32 == 46 <==> c == '.',
{
}

proof fn lemma_drive_cut(path: Seq<u32>)
    requires
        path.len() >= 3,
        is_letter(path[0]),
        path[1] == 58,
        is_separator(path[2]),
    ensures
        cut_of(path) == (Cut { body: 3, verbatim: false }),
        prefix_of(path) == (PrefixModel {
            kind: PrefixKind::Disk,
            first: seq![upper_letter(path[0])],
            second: Seq::empty(),
            len: 2,
        }),
        has_root(path),
{
}

proof fn lemma_named_in(directory: Seq<char>, separator: char, name: Seq<char>)
    requires
        is_drive_directory(directory),
        is_plain_file_name(name),
        separator == '\\' || separator == '/',
    ensures
        ({
            let path = directory + seq![separator] + name;
            let units = text_units(path);
            let cut = cut_of(units);
            &&& cut == (Cut { body: 3, verbatim: false })
            &&& cut_of(text_units(directory)) == cut
            &&& prefix_of(units) == prefix_of(text_units(directory))
            &&& has_root(units) && has_root(text_units(directory))
            &&& meaningful_stop(units, cut, path.len()) == path.len()
            &&& name_from(units, cut, path.len()) == directory.len() + 1
            &&& meaningful_stop(units, cut, directory.len() + 1) == directory.len()
            &&& meaningful_stop(text_units(directory), cut, directory.len()) == directory.len()
        }),
{
    let path = directory + seq![separator] + name;
    let units = text_units(path);
    let own = text_units(directory);
    assert(units[0] == own[0] && units[1] == own[1] && units[2] == own[2]);
    lemma_drive_cut(units);
    lemma_drive_cut(own);
    let cut = cut_of(units);
    let n = directory.len();
    assert forall|i: int| n + 1 <= i < units.len() implies !separates(#[trigger] units[i], false) by {
        assert(path[i] == name[i - n - 1]);
        assert(name.contains(name[i - n - 1]));
        lemma_unit_of(path[i]);
        assert(units[i] == path[i] as u32);
    }
    lemma_unit_of(directory.last());
    assert(units[n as int] == separator as u32);
    assert(units[n - 1] == directory.last() as u32);
    assert(own[n - 1] == directory.last() as u32);
    lemma_name_from(units, cut, path.len(), name.len());
    reveal_with_fuel(meaningful_stop, 3);
    assert(!separates(units[path.len() - 1], false));
    if name.len() == 1 {
        assert(path[path.len() - 1] == name[0]);
        lemma_unit_of(name[0]);
        if name[0] == '.' {
            assert(name =~= seq!['.']);
        }
    } else {
        assert(!separates(units[path.len() - 2], false));
    }
}

/// A path below a directory of a drive has the directory's names and its own, whichever separator
/// stands between them and in whichever case the drive's letter is written.
pub proof fn a_name_on_a_drive_is_the_last_one(
    directory: Seq<char>,
    separator: char,
    name: Seq<char>,
)
    requires
        is_drive_directory(directory),
        is_plain_file_name(name),
        separator == '\\' || separator == '/',
    ensures
        ({
            let path = directory + seq![separator] + name;
            let above = path_model(text_units(directory));
            let below = path_model(text_units(path));
            &&& below.names == above.names.push(text_units(name))
            &&& below.kind == PrefixKind::Disk && above.kind == PrefixKind::Disk
            &&& below.first == above.first
            &&& below.first.len() == 1
            &&& 65 <= below.first[0] <= 90
            &&& below.first[0] == directory[0] as u32 || below.first[0] + 32 == directory[0] as u32
            &&& below.second.len() == 0
            &&& below.rooted && above.rooted
            &&& windows_name(path) == Some(name)
        }),
{
    let path = directory + seq![separator] + name;
    let units = text_units(path);
    let own = text_units(directory);
    lemma_named_in(directory, separator, name);
    let cut = cut_of(units);
    let n = directory.len();
    assert(units.subrange((n + 1) as int, path.len() as int) =~= text_units(name));
    assert(path.subrange((n + 1) as int, path.len() as int) =~= name);
    assert forall|i: int| 0 <= i < n implies #[trigger] units[i] == own[i] by {}
    lemma_shared_stops(units, own, cut, n);
    lemma_shared_names(units, own, cut, n);
    assert(names_of(units, cut, n + 1) == names_of(units, cut, n));
    let spelled_name = text_units(name);
    assert(spelled_name != seq![46u32] && spelled_name != seq![46u32, 46u32]) by {
        if spelled_name == seq![46u32] {
            assert(spelled_name[0] == name[0] as u32);
            lemma_unit_of(name[0]);
            assert(name =~= seq!['.']);
        }
        if spelled_name == seq![46u32, 46u32] {
            assert(spelled_name[0] == name[0] as u32 && spelled_name[1] == name[1] as u32);
            lemma_unit_of(name[0]);
            lemma_unit_of(name[1]);
            assert(name =~= seq!['.', '.']);
        }
    }
    lemma_drive_cut(units);
}

/// Another name takes the place of a file's own, in the same directory.
pub proof fn a_file_is_renamed_in_its_directory(
    directory: Seq<char>,
    separator: char,
    name: Seq<char>,
    other: Seq<char>,
)
    requires
        is_drive_directory(directory),
        is_plain_file_name(name),
        separator == '\\' || separator == '/',
    ensures
        windows_renamed(directory + seq![separator] + name, other) == directory + seq!['\\'] + other,
{
    let path = directory + seq![separator] + name;
    lemma_named_in(directory, separator, name);
    a_name_on_a_drive_is_the_last_one(directory, separator, name);
    assert(path.take(directory.len() as int) =~= directory);
    lemma_drive_cut(text_units(directory));
}

/// Below a directory of a drive, a name that starts nowhere else goes behind a separator; a name
/// with a root takes the drive alone; one with a drive of its own takes nothing.
pub proof fn names_join_below_a_drive(base: Seq<u32>, name: Seq<u32>)
    requires
        base.len() >= 3,
        65 <= base[0] <= 90 || 97 <= base[0] <= 122,
        base[1] == 58,
        base[2] == 92 || base[2] == 47,
        name.len() > 0,
    ensures
        ({
            let rooted = name[0] == 92 || name[0] == 47;
            let driven = name.len() >= 2 && name[1] == 58 && (65 <= name[0] <= 90 || 97 <= name[0]
                <= 122);
            let shared = name.len() >= 2 && rooted && (name[1] == 92 || name[1] == 47);
            &&& driven ==> joined_units(base, name) == name
            &&& rooted && !shared ==> joined_units(base, name) == base.take(2) + name
            &&& !rooted && !driven && base.last() != 92 && base.last() != 47 ==> joined_units(
                base,
                name,
            ) == base + seq![92u32] + name
            &&& !rooted && !driven && (base.last() == 92 || base.last() == 47) ==> joined_units(
                base,
                name,
            ) == base + name
        }),
{
    lemma_drive_cut(base);
}

/// Names are followed one by one: one goes down, two dots go back up where there is a name to go
/// back from, and a single dot stays.
pub proof fn names_are_followed_in_turn(
    names: Seq<Seq<u32>>,
    first: Seq<Seq<u32>>,
    second: Seq<Seq<u32>>,
    name: Seq<u32>,
)
    ensures
        followed(names, first + second) == followed(followed(names, first), second),
        followed(names, Seq::empty()) == names,
        name != seq![46u32] && name != seq![46u32, 46u32] ==> {
            &&& followed(names, seq![name]) == names.push(name)
            &&& followed(names, seq![name, seq![46u32, 46u32]]) == names
        },
        followed(names, seq![seq![46u32]]) == names,
        names.len() == 0 ==> followed(names, seq![seq![46u32, 46u32]]) == names,
    decreases second.len(),
{
    let dot = seq![46u32];
    let dots = seq![46u32, 46u32];
    assert(dot.len() != dots.len());
    lemma_one_followed(names, name);
    lemma_one_followed(names, dot);
    lemma_one_followed(names, dots);
    assert(seq![name, dots].drop_last() =~= seq![name]);
    assert(names.push(name).drop_last() =~= names);
    assert(followed(names, seq![name, dots]) == followed(followed(names, seq![name]), seq![dots])) by {
        lemma_one_followed(followed(names, seq![name]), dots);
    }
    if second.len() == 0 {
        assert(first + second =~= first);
    } else {
        names_are_followed_in_turn(names, first, second.drop_last(), name);
        assert((first + second).drop_last() =~= first + second.drop_last());
        assert((first + second).last() == second.last());
    }
}

proof fn lemma_one_followed(names: Seq<Seq<u32>>, name: Seq<u32>)
    ensures
        followed(names, seq![name]) == if is_plain(name) {
            names.push(name)
        } else if name == seq![46u32, 46u32] && names.len() > 0 && is_plain(names.last()) {
            names.drop_last()
        } else {
            names
        },
{
    assert(seq![name].drop_last() =~= Seq::empty());
    assert(seq![name].last() == name);
    assert(followed(names, seq![name].drop_last()) == names);
}

proof fn lemma_name_stop(path: Seq<u32>, at: nat, end: nat, verbatim: bool)
    requires
        at <= end <= path.len(),
        forall|i: int| at <= i < end ==> !separates(#[trigger] path[i], verbatim),
        end == path.len() || separates(path[end as int], verbatim),
    ensures
        name_stop(path, at, verbatim) == end,
    decreases end - at,
{
    if at < end {
        assert(!separates(path[at as int], verbatim));
        lemma_name_stop(path, at + 1, end, verbatim);
    }
}

/// A name in units that a file can have.
pub open spec fn is_plain_unit_name(name: Seq<u32>) -> bool {
    &&& name.len() > 0
    &&& !name.contains(92) && !name.contains(47)
    &&& name != seq![46u32] && name != seq![46u32, 46u32]
}

proof fn lemma_no_separator(name: Seq<u32>, i: int, verbatim: bool)
    requires
        !name.contains(92),
        verbatim || !name.contains(47),
        0 <= i < name.len(),
    ensures
        !separates(name[i], verbatim),
{
    assert(name.contains(name[i]));
}

/// A share is known by its server and its name, and what follows lies below it.
pub proof fn shares_are_known_by_server_and_name(server: Seq<u32>, share: Seq<u32>, name: Seq<u32>)
    requires
        is_plain_unit_name(server),
        server != seq![63u32],
        is_plain_unit_name(share),
        is_plain_unit_name(name),
    ensures
        path_model(seq![92u32, 92u32] + server + seq![92u32] + share + seq![92u32] + name) == (
        PathModel {
            kind: PrefixKind::Share,
            first: server,
            second: share,
            rooted: true,
            names: seq![name],
        }),
{
    let path = seq![92u32, 92u32] + server + seq![92u32] + share + seq![92u32] + name;
    let middle = 2 + server.len();
    let end = middle + 1 + share.len();
    assert forall|i: int| 2 <= i < middle implies !separates(#[trigger] path[i], false) by {
        assert(path[i] == server[i - 2]);
        lemma_no_separator(server, i - 2, false);
    }
    assert forall|i: int| middle + 1 <= i < end implies !separates(#[trigger] path[i], false) by {
        assert(path[i] == share[i - middle - 1]);
        lemma_no_separator(share, i - middle - 1, false);
    }
    assert forall|i: int| end + 1 <= i < path.len() implies !separates(#[trigger] path[i], false) by {
        assert(path[i] == name[i - end - 1]);
        lemma_no_separator(name, i - end - 1, false);
    }
    assert(path[middle as int] == 92);
    assert(path[end as int] == 92);
    lemma_name_stop(path, 2, middle, false);
    lemma_name_stop(path, middle + 1, end, false);
    assert(path.subrange(2, middle as int) =~= server);
    assert(path.subrange((middle + 1) as int, end as int) =~= share);
    assert(path[2] == server[0]);
    assert(path[3] == 92 ==> server.len() == 1);
    assert(!(path[2] == 63 && path[3] == 92)) by {
        if path[2] == 63 && path[3] == 92 {
            if server.len() > 1 {
                assert(path[3] == server[1]);
                lemma_no_separator(server, 1, false);
            }
            assert(server =~= seq![63u32]);
        }
    }
    assert(!(path[2] == 46 && is_separator(path[3]))) by {
        if path[2] == 46 && is_separator(path[3]) {
            if server.len() > 1 {
                assert(path[3] == server[1]);
                lemma_no_separator(server, 1, false);
            }
            assert(server =~= seq![46u32]);
        }
    }
    let cut = cut_of(path);
    assert(cut == (Cut { body: end + 1, verbatim: false }));
    assert(path.skip((end + 1) as int) =~= name);
    assert forall|i: int| 0 <= i < name.len() implies !separates(#[trigger] name[i], false) by {
        lemma_no_separator(name, i, false);
    }
    lemma_single_name(path, cut, name);
}

proof fn lemma_single_name(path: Seq<u32>, cut: Cut, name: Seq<u32>)
    requires
        path.len() == cut.body + name.len(),
        name.len() > 0,
        path.skip(cut.body as int) == name,
        forall|i: int| 0 <= i < name.len() ==> !separates(#[trigger] name[i], cut.verbatim),
        cut.verbatim || cut.body == 0 || name != seq![46u32],
    ensures
        names_of(path, cut, path.len()) == seq![name],
{
    let n = path.len();
    assert forall|i: int| cut.body <= i < n implies !separates(#[trigger] path[i], cut.verbatim) by {
        assert(path[i] == name[i - cut.body]);
    }
    assert(path[n - 1] == name[name.len() - 1]);
    assert(!is_idle_dot(path, cut, n)) by {
        if name.len() == 1 {
            if name[0] == 46 {
                assert(name =~= seq![46u32]);
            }
        } else {
            assert(path[n - 2] == name[name.len() - 2]);
        }
    }
    lemma_name_from(path, cut, n, name.len());
    assert(path.subrange(cut.body as int, n as int) =~= name);
    assert(names_of(path, cut, cut.body) =~= Seq::empty());
    assert(names_of(path, cut, n) =~= seq![name]);
}

/// After the mark of a verbatim path only the backslash separates, so a slash is part of a name.
pub proof fn verbatim_names_keep_their_slashes(letter: u32, name: Seq<u32>)
    requires
        65 <= letter <= 90 || 97 <= letter <= 122,
        name.len() > 0,
        !name.contains(92),
    ensures
        ({
            let model = path_model(
                seq![92u32, 92u32, 63u32, 92u32, letter, 58u32, 92u32] + name,
            );
            &&& model.kind == PrefixKind::VerbatimDisk
            &&& model.rooted
            &&& model.names == seq![name]
            &&& model.first.len() == 1
            &&& model.first[0] == letter || model.first[0] + 32 == letter
            &&& 65 <= model.first[0] <= 90
        }),
{
    let path = seq![92u32, 92u32, 63u32, 92u32, letter, 58u32, 92u32] + name;
    assert(path[0] == 92 && path[1] == 92 && path[2] == 63 && path[3] == 92);
    assert(path[4] == letter && path[5] == 58 && path[6] == 92);
    let cut = cut_of(path);
    assert(cut == (Cut { body: 7, verbatim: true }));
    assert(path.skip(7) =~= name);
    assert forall|i: int| 0 <= i < name.len() implies !separates(#[trigger] name[i], true) by {
        lemma_no_separator(name, i, true);
    }
    lemma_single_name(path, cut, name);
}

/// A name alone is a path without a root.
pub proof fn names_alone_have_no_root(name: Seq<u32>)
    requires
        is_plain_unit_name(name),
        name.len() == 1 || name[1] != 58,
    ensures
        path_model(name) == (PathModel {
            kind: PrefixKind::Plain,
            first: Seq::empty(),
            second: Seq::empty(),
            rooted: false,
            names: seq![name],
        }),
        path_model(seq![92u32] + name) == (PathModel {
            kind: PrefixKind::Plain,
            first: Seq::empty(),
            second: Seq::empty(),
            rooted: true,
            names: seq![name],
        }),
{
    assert forall|i: int| 0 <= i < name.len() implies !separates(#[trigger] name[i], false) by {
        lemma_no_separator(name, i, false);
    }
    assert(!separates(name[0], false));
    assert(cut_of(name) == (Cut { body: 0, verbatim: false }));
    assert(name.skip(0) =~= name);
    lemma_single_name(name, cut_of(name), name);
    let rooted = seq![92u32] + name;
    assert(rooted[0] == 92 && rooted[1] == name[0]);
    assert(cut_of(rooted) == (Cut { body: 1, verbatim: false }));
    assert(rooted.skip(1) =~= name);
    lemma_single_name(rooted, cut_of(rooted), name);
}

} // verus!
