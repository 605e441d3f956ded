//! Names of programs and libraries.
use vstd::prelude::*;

use crate::strings::{
    chars_of, decimal, decimal_text, join2, join3, lowered, same_ignoring_case, split_on,
    split_text, text_between, text_list,
};
use crate::windows::paths::{windows_file_name, windows_name};

verus! {

/// What the host puts after the name of a program.
pub const EXECUTABLE_EXTENSION: &'static str = "exe";

/// The file that a program of that bare name is in.
pub fn file_name(bare: &str) -> (name: String)
    ensures
        name@ == bare@ + ".exe"@,
{
    join2(bare, ".exe")
}

/// Where the extension of a name starts: at its last dot, unless that is the
/// first character. A lone `..` has none.
pub open spec fn extension_dot(name: Seq<char>) -> Option<int> {
    if name == seq!['.', '.'] { None } else { last_dot(name) }
}

/// The last dot of a name that is not its first character.
pub open spec fn last_dot(name: Seq<char>) -> Option<int>
    decreases name.len(),
{
    if name.len() <= 1 {
        None
    } else if name.last() == '.' {
        Some(name.len() - 1)
    } else {
        last_dot(name.drop_last())
    }
}

fn find_dot(name: &Vec<char>) -> (dot: Option<usize>)
    ensures
        match dot {
            Some(dot) => extension_dot(name@) == Some(dot as int) && 0 < dot < name@.len(),
            None => extension_dot(name@) is None,
        },
{
    if name.len() == 2 && name[0] == '.' && name[1] == '.' {
        assert(name@ =~= seq!['.', '.']);
        return None;
    }
    proof {
        if name@ == seq!['.', '.'] {
            assert(name@.len() == 2 && name@[0] == '.' && name@[1] == '.');
        }
        assert(name@.take(name@.len() as int) =~= name@);
    }
    let mut at: usize = name.len();
    while at > 1
        invariant
            at <= name@.len(),
            name@ != seq!['.', '.'],
            last_dot(name@) == last_dot(name@.take(at as int)),
        decreases at,
    {
        let ghost front = name@.take(at as int);
        assert(front.last() == name@[at - 1]);
        assert(front.drop_last() =~= name@.take(at - 1));
        if name[at - 1] == '.' {
            return Some(at - 1);
        }
        at -= 1;
    }
    None
}

/// Whether the last name of a path has an extension.
pub open spec fn has_extension(path: Seq<char>) -> bool {
    windows_name(path) is Some && extension_dot(windows_name(path)->Some_0) is Some
}

fn path_has_extension(path: &str) -> (has: bool)
    ensures
        has == has_extension(path@),
{
    match windows_file_name(path) {
        Some(name) => find_dot(&chars_of(name.as_str())).is_some(),
        None => false,
    }
}

/// The file that a library of that stem is in.
pub fn native_library_name(stem: &str) -> (name: String)
    ensures
        name@ == if has_extension(stem@) { stem@ } else { stem@ + ".dll"@ },
{
    if path_has_extension(stem) {
        stem.to_owned()
    } else {
        join2(stem, ".dll")
    }
}

/// A name without its extension.
pub open spec fn stem_of(name: Seq<char>) -> Seq<char> {
    match extension_dot(name) {
        Some(dot) => name.take(dot),
        None => name,
    }
}

/// Whether the stem of a path is `expected`, in any case.
pub fn stem_matches(path: &str, expected: &str) -> (matches: bool)
    ensures
        matches == match windows_name(path@) {
            Some(name) => lowered(stem_of(name)) == lowered(expected@),
            None => false,
        },
{
    let text = match windows_file_name(path) {
        Some(text) => text,
        None => {
            return false;
        },
    };
    let name = chars_of(text.as_str());
    match find_dot(&name) {
        Some(dot) => {
            let stem = text_between(&name, 0, dot);
            assert(name@.subrange(0, dot as int) =~= name@.take(dot as int));
            same_ignoring_case(stem.as_str(), expected)
        },
        None => same_ignoring_case(text.as_str(), expected),
    }
}

/// Texts that are not empty.
pub open spec fn nonempty(list: Seq<Seq<char>>) -> Seq<Seq<char>>
    decreases list.len(),
{
    if list.len() == 0 {
        Seq::empty()
    } else {
        let before = nonempty(list.drop_last());
        if list.last().len() > 0 { before.push(list.last()) } else { before }
    }
}

/// The suffixes under which a program is looked for: none where its name has
/// one, else those that the environment lists, else the customary four.
pub open spec fn suffixes_for(name: Seq<char>, listed: Option<Seq<char>>) -> Seq<Seq<char>> {
    let customary = seq![".COM"@, ".EXE"@, ".BAT"@, ".CMD"@];
    if has_extension(name) {
        seq![Seq::empty()]
    } else {
        match listed {
            Some(listed) => {
                let given = nonempty(split_on(listed, ';'));
                if given.len() > 0 { given } else { customary }
            },
            None => customary,
        }
    }
}

fn search_suffixes(name: &str, listed: Option<&str>) -> (suffixes: Vec<String>)
    ensures
        text_list(suffixes@) == suffixes_for(
            name@,
            match listed {
                Some(listed) => Some(listed@),
                None => None,
            },
        ),
{
    let mut suffixes: Vec<String> = Vec::new();
    assert(text_list(suffixes@) =~= Seq::<Seq<char>>::empty());
    if path_has_extension(name) {
        suffixes.push(String::new());
        proof {
            assert(suffixes@[0]@ =~= Seq::<char>::empty());
            assert(text_list(suffixes@) =~= seq![Seq::<char>::empty()]);
        }
        return suffixes;
    }
    if let Some(listed) = listed {
        let pieces = split_text(listed, ';');
        let ghost all = text_list(pieces@);
        assert(all.take(0) =~= Seq::<Seq<char>>::empty());
        for at in 0..pieces.len()
            invariant
                all == text_list(pieces@),
                text_list(suffixes@) == nonempty(all.take(at as int)),
        {
            let ghost before = text_list(suffixes@);
            proof {
                assert(all.take(at + 1).drop_last() =~= all.take(at as int));
                assert(all.take(at + 1).last() == pieces@[at as int]@);
            }
            if chars_of(pieces[at].as_str()).len() > 0 {
                suffixes.push(pieces[at].clone());
                assert(text_list(suffixes@) =~= before.push(pieces@[at as int]@));
            }
        }
        assert(all.take(all.len() as int) =~= all);
        if suffixes.len() > 0 {
            return suffixes;
        }
    }
    let mut customary: Vec<String> = Vec::new();
    customary.push(".COM".to_owned());
    customary.push(".EXE".to_owned());
    customary.push(".BAT".to_owned());
    customary.push(".CMD".to_owned());
    assert(text_list(customary@) =~= seq![".COM"@, ".EXE"@, ".BAT"@, ".CMD"@]);
    customary
}

/// The file names to look for in each directory, in order. `listed` is what the
/// environment gives for `PATHEXT`.
pub fn candidate_names(name: &str, listed: Option<&str>) -> (names: Vec<String>)
    ensures
        ({
            let suffixes = suffixes_for(
                name@,
                match listed {
                    Some(listed) => Some(listed@),
                    None => None,
                },
            );
            text_list(names@) == suffixes.map_values(|suffix: Seq<char>| name@ + suffix)
        }),
{
    let suffixes = search_suffixes(name, listed);
    let ghost all = text_list(suffixes@);
    let ghost expected = all.map_values(|suffix: Seq<char>| name@ + suffix);
    let mut names: Vec<String> = Vec::new();
    for at in 0..suffixes.len()
        invariant
            all == text_list(suffixes@),
            expected == all.map_values(|suffix: Seq<char>| name@ + suffix),
            text_list(names@) == expected.take(at as int),
    {
        let ghost before = text_list(names@);
        names.push(join2(name, suffixes[at].as_str()));
        proof {
            assert(expected[at as int] == name@ + suffixes@[at as int]@);
            assert(text_list(names@) =~= before.push(expected[at as int]));
            assert(text_list(names@) =~= expected.take(at + 1));
        }
    }
    assert(expected.take(expected.len() as int) =~= expected);
    names
}

/// Which of the files that were looked for is taken: the first that is there, by
/// directory and then by name.
pub fn find_in_paths(found: &Vec<Vec<bool>>) -> (place: Option<(usize, usize)>)
    ensures
        match place {
            Some((directory, name)) => {
                &&& directory < found@.len() && name < found@[directory as int]@.len()
                &&& found@[directory as int]@[name as int]
                &&& forall|n: int|
                    0 <= n < name ==> !(#[trigger] found@[directory as int]@[n])
                &&& forall|d: int, n: int|
                    0 <= d < directory && 0 <= n < found@[d]@.len()
                        ==> !(#[trigger] found@[d]@[n])
            },
            None => forall|d: int, n: int|
                0 <= d < found@.len() && 0 <= n < found@[d]@.len() ==> !(#[trigger] found@[d]@[n]),
        },
{
    for directory in 0..found.len()
        invariant
            forall|d: int, n: int|
                0 <= d < directory && 0 <= n < found@[d]@.len() ==> !(#[trigger] found@[d]@[n]),
    {
        let names = &found[directory];
        for name in 0..names.len()
            invariant
                directory < found@.len(),
                names@ == found@[directory as int]@,
                forall|n: int| 0 <= n < name ==> !(#[trigger] found@[directory as int]@[n]),
                forall|d: int, n: int|
                    0 <= d < directory && 0 <= n < found@[d]@.len()
                        ==> !(#[trigger] found@[d]@[n]),
        {
            if names[name] {
                return Some((directory, name));
            }
        }
    }
    None
}

/// The name under which a running image is put aside, so that another can be
/// written in its place: its stem, and a number that sets it apart.
pub fn unlock_for_replacement(name: &str, process: u32, nanos: u32) -> (retired: String)
    ensures
        retired@ == stem_of(name@) + ".exe.old."@ + decimal((process ^ nanos) as nat),
{
    let chars = chars_of(name);
    let stem = match find_dot(&chars) {
        Some(dot) => {
            assert(chars@.subrange(0, dot as int) =~= name@.take(dot as int));
            text_between(&chars, 0, dot)
        },
        None => name.to_owned(),
    };
    join3(stem.as_str(), ".exe.old.", decimal_text((process ^ nanos) as u64).as_str())
}

proof fn lemma_last_dot(stem: Seq<char>, extension: Seq<char>)
    requires
        stem.len() > 0,
        !extension.contains('.'),
    ensures
        last_dot(stem + seq!['.'] + extension) == Some(stem.len() as int),
    decreases extension.len(),
{
    let name = stem + seq!['.'] + extension;
    if extension.len() > 0 {
        let less = extension.drop_last();
        assert(extension.contains(extension[extension.len() - 1]));
        assert(!less.contains('.')) by {
            if less.contains('.') {
                let i = choose|i: int| 0 <= i < less.len() && less[i] == '.';
                assert(extension[i] == '.');
            }
        }
        assert(name.drop_last() =~= stem + seq!['.'] + less);
        assert(name.last() == extension.last());
        lemma_last_dot(stem, less);
    } else {
        assert(name.last() == '.');
    }
}

proof fn lemma_no_dot(name: Seq<char>)
    requires
        forall|i: int| 1 <= i < name.len() ==> #[trigger] name[i] != '.',
    ensures
        last_dot(name) is None,
    decreases name.len(),
{
    if name.len() > 1 {
        assert(name.last() == name[name.len() - 1]);
        lemma_no_dot(name.drop_last());
    }
}

/// What stands behind the last dot is the extension, what stands before it the stem. A dot at
/// the very front starts no extension.
pub proof fn extensions_stand_behind_the_last_dot(stem: Seq<char>, extension: Seq<char>)
    requires
        !extension.contains('.'),
    ensures
        stem.len() > 0 && stem + seq!['.'] + extension != seq!['.', '.'] ==> {
            &&& extension_dot(stem + seq!['.'] + extension) == Some(stem.len() as int)
            &&& stem_of(stem + seq!['.'] + extension) == stem
        },
        extension_dot(extension) is None,
        stem_of(extension) == extension,
        extension_dot(seq!['.'] + extension) is None,
        stem_of(seq!['.'] + extension) == seq!['.'] + extension,
{
    let name = stem + seq!['.'] + extension;
    if stem.len() > 0 {
        lemma_last_dot(stem, extension);
        assert(name.take(stem.len() as int) =~= stem);
    }
    assert forall|i: int| 1 <= i < extension.len() implies #[trigger] extension[i] != '.' by {
        assert(extension.contains(extension[i]));
    }
    lemma_no_dot(extension);
    let hidden = seq!['.'] + extension;
    assert forall|i: int| 1 <= i < hidden.len() implies #[trigger] hidden[i] != '.' by {
        assert(extension.contains(extension[i - 1]));
    }
    lemma_no_dot(hidden);
}

/// What is listed counts but for empty pieces, in its order; the customary four count where
/// nothing is listed, and none where the name has an extension of its own.
pub proof fn listed_suffixes_count_in_order(name: Seq<char>, listed: Seq<char>)
    ensures
        has_extension(name) ==> suffixes_for(name, Some(listed)) == seq![Seq::<char>::empty()]
            && suffixes_for(name, None) == seq![Seq::<char>::empty()],
        !has_extension(name) ==> {
            let given = split_on(listed, ';').filter(|piece: Seq<char>| piece.len() > 0);
            &&& suffixes_for(name, None) == seq![".COM"@, ".EXE"@, ".BAT"@, ".CMD"@]
            &&& suffixes_for(name, Some(listed)) == if given.len() > 0 {
                given
            } else {
                seq![".COM"@, ".EXE"@, ".BAT"@, ".CMD"@]
            }
        },
{
    lemma_nonempty_filters(split_on(listed, ';'));
}

proof fn lemma_nonempty_filters(list: Seq<Seq<char>>)
    ensures
        nonempty(list) == list.filter(|piece: Seq<char>| piece.len() > 0),
    decreases list.len(),
{
    reveal(Seq::filter);
    if list.len() > 0 {
        lemma_nonempty_filters(list.drop_last());
    }
}

/// Each candidate is the name and a suffix; a name with an extension is its only candidate.
pub proof fn candidates_start_with_the_name(
    name: &str,
    listed: Option<&str>,
    names: Vec<String>,
    library: String,
)
    requires
        call_ensures(candidate_names, (name, listed), names),
        call_ensures(native_library_name, (name,), library),
    ensures
        forall|i: int|
            0 <= i < names@.len() ==> (#[trigger] names@[i])@.len() >= name@.len()
                && names@[i]@.take(name@.len() as int) == name@,
        names@.len() > 0,
        has_extension(name@) ==> names@.len() == 1 && names@[0]@ == name@ && library@ == name@,
        !has_extension(name@) ==> library@ == name@ + ".dll"@,
{
    let suffixes = suffixes_for(
        name@,
        match listed {
            Some(listed) => Some(listed@),
            None => None,
        },
    );
    assert(text_list(names@).len() == names@.len());
    assert forall|i: int| 0 <= i < names@.len() implies (#[trigger] names@[i])@.len() >= name@.len()
        && names@[i]@.take(name@.len() as int) == name@ by {
        assert(text_list(names@)[i] == name@ + suffixes[i]);
        assert((name@ + suffixes[i]).take(name@.len() as int) =~= name@);
    }
    assert(suffixes.len() > 0);
    if has_extension(name@) {
        assert(text_list(names@)[0] == name@ + suffixes[0]);
        assert(name@ + Seq::<char>::empty() =~= name@);
    }
}

} // verus!
