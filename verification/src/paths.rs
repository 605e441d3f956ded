//! Paths as the POSIX hosts read them: names between slashes.
//!
//! Repeated slashes and `.` components carry no meaning, except for a `.` at the
//! very front of a relative path.
use vstd::prelude::*;
use vstd::string::StringExecFns;

use crate::strings::{chars_of, push_char, same_text, text_between};

verus! {

/// How much of the front is the root.
pub open spec fn root_len(path: Seq<char>) -> nat {
    if path.len() > 0 && path[0] == '/' { 1 } else { 0 }
}

/// Where the component that ends at `end` starts: after the last slash.
pub open spec fn component_start(path: Seq<char>, end: nat) -> nat
    decreases end,
{
    if end == 0 || path[end - 1] == '/' {
        end
    } else {
        component_start(path, (end - 1) as nat)
    }
}

/// Where the last meaningful component of `path[..end]` ends: slashes and `.`
/// components at the back are dropped, but not the root nor a leading `.`.
pub open spec fn meaningful_end(path: Seq<char>, end: nat) -> nat
    decreases end,
{
    if end <= root_len(path) {
        end
    } else if path[end - 1] == '/' {
        meaningful_end(path, (end - 1) as nat)
    } else if end >= 2 && path[end - 1] == '.' && path[end - 2] == '/' {
        meaningful_end(path, (end - 1) as nat)
    } else {
        end
    }
}

/// The last component of a path, unless it is the root, `.` or `..`.
pub open spec fn last_name(path: Seq<char>) -> Option<Seq<char>> {
    let end = meaningful_end(path, path.len());
    let start = component_start(path, end);
    let name = path.subrange(start as int, end as int);
    if end <= root_len(path) || name == seq!['.'] || name == seq!['.', '.'] {
        None
    } else {
        Some(name)
    }
}

/// The path without its last component; the root and the empty path have none.
pub open spec fn parent_path(path: Seq<char>) -> Option<Seq<char>> {
    let end = meaningful_end(path, path.len());
    if end <= root_len(path) {
        None
    } else {
        Some(path.take(meaningful_end(path, component_start(path, end)) as int))
    }
}

/// `name` below `base`, or `name` itself where it starts at the root.
pub open spec fn joined(base: Seq<char>, name: Seq<char>) -> Seq<char> {
    if name.len() > 0 && name[0] == '/' {
        name
    } else if base.len() > 0 && base.last() != '/' {
        base + seq!['/'] + name
    } else {
        base + name
    }
}

proof fn lemma_component_start_bounds(path: Seq<char>, end: nat)
    requires
        end <= path.len(),
    ensures
        component_start(path, end) <= end,
    decreases end,
{
    if end > 0 && path[end - 1] != '/' {
        lemma_component_start_bounds(path, (end - 1) as nat);
    }
}

fn find_component_start(path: &Vec<char>, end: usize) -> (start: usize)
    requires
        end <= path@.len(),
    ensures
        start == component_start(path@, end as nat),
        start <= end,
{
    proof {
        lemma_component_start_bounds(path@, end as nat);
    }
    let mut at: usize = end;
    while at > 0 && path[at - 1] != '/'
        invariant
            at <= end <= path@.len(),
            component_start(path@, end as nat) == component_start(path@, at as nat),
        decreases at,
    {
        at -= 1;
    }
    at
}

fn find_meaningful_end(path: &Vec<char>, from: usize) -> (end: usize)
    requires
        from <= path@.len(),
    ensures
        end == meaningful_end(path@, from as nat),
        end <= from,
{
    let root: usize = if path.len() > 0 && path[0] == '/' { 1 } else { 0 };
    let mut end: usize = from;
    while end > root && (path[end - 1] == '/' || (end >= 2 && path[end - 1] == '.' && path[end - 2]
        == '/'))
        invariant
            root == root_len(path@),
            end <= from <= path@.len(),
            meaningful_end(path@, from as nat) == meaningful_end(path@, end as nat),
        decreases end,
    {
        end -= 1;
    }
    end
}

/// `Path::file_name`.
pub fn path_file_name(path: &str) -> (name: Option<String>)
    ensures
        match name {
            Some(name) => last_name(path@) == Some(name@),
            None => last_name(path@) is None,
        },
{
    let chars = chars_of(path);
    let end = find_meaningful_end(&chars, chars.len());
    let root: usize = if chars.len() > 0 && chars[0] == '/' { 1 } else { 0 };
    if end <= root {
        return None;
    }
    let start = find_component_start(&chars, end);
    let ghost name = path@.subrange(start as int, end as int);
    if end - start == 1 && chars[start] == '.' {
        assert(name =~= seq!['.']);
        return None;
    }
    if end - start == 2 && chars[start] == '.' && chars[start + 1] == '.' {
        assert(name =~= seq!['.', '.']);
        return None;
    }
    proof {
        if name == seq!['.'] {
            assert(name.len() == 1 && name[0] == '.');
        }
        if name == seq!['.', '.'] {
            assert(name.len() == 2 && name[0] == '.' && name[1] == '.');
        }
    }
    Some(text_between(&chars, start, end))
}

/// `Path::parent`.
pub fn path_parent(path: &str) -> (parent: Option<String>)
    ensures
        match parent {
            Some(parent) => parent_path(path@) == Some(parent@),
            None => parent_path(path@) is None,
        },
{
    let chars = chars_of(path);
    let end = find_meaningful_end(&chars, chars.len());
    let root: usize = if chars.len() > 0 && chars[0] == '/' { 1 } else { 0 };
    if end <= root {
        return None;
    }
    let start = find_component_start(&chars, end);
    let keep = find_meaningful_end(&chars, start);
    assert(path@.subrange(0, keep as int) =~= path@.take(keep as int));
    Some(text_between(&chars, 0, keep))
}

/// `Path::join`.
pub fn path_join(base: &str, name: &str) -> (path: String)
    ensures
        path@ == joined(base@, name@),
{
    let base_chars = chars_of(base);
    let name_chars = chars_of(name);
    if name_chars.len() > 0 && name_chars[0] == '/' {
        return name.to_owned();
    }
    let mut path = String::from_str(base);
    if base_chars.len() > 0 && base_chars[base_chars.len() - 1] != '/' {
        push_char(&mut path, '/');
        assert(path@ =~= base@ + seq!['/']);
    }
    path.append(name);
    path
}

/// The components of `path[..end]`: the root, where there is one, then the names
/// between slashes.
pub open spec fn components(path: Seq<char>, end: nat) -> Seq<Seq<char>>
    decreases end,
{
    let last = meaningful_end(path, end);
    let start = component_start(path, last);
    if last <= root_len(path) || start >= last || last > end {
        if root_len(path) > 0 { seq![seq!['/']] } else { Seq::empty() }
    } else {
        components(path, start).push(path.subrange(start as int, last as int))
    }
}

/// Two paths are the same if their components are.
pub open spec fn same_components(first: Seq<char>, second: Seq<char>) -> bool {
    components(first, first.len()) == components(second, second.len())
}

proof fn lemma_component_nonempty(path: Seq<char>, end: nat)
    requires
        root_len(path) < end <= path.len(),
        path[end - 1] != '/',
    ensures
        component_start(path, end) < end,
{
    lemma_component_start_bounds(path, (end - 1) as nat);
}

proof fn lemma_meaningful_end_stops(path: Seq<char>, end: nat)
    requires
        end <= path.len(),
    ensures
        meaningful_end(path, end) <= end,
        meaningful_end(path, end) > root_len(path) ==> path[meaningful_end(path, end) - 1] != '/',
    decreases end,
{
    if end > root_len(path) && (path[end - 1] == '/' || (end >= 2 && path[end - 1] == '.' && path[
        end - 2] == '/')) {
        lemma_meaningful_end_stops(path, (end - 1) as nat);
    }
}

fn list_components(path: &Vec<char>, end: usize) -> (list: Vec<String>)
    requires
        end <= path@.len(),
    ensures
        list@.map_values(|name: String| name@) == components(path@, end as nat),
    decreases end,
{
    let last = find_meaningful_end(path, end);
    let root: usize = if path.len() > 0 && path[0] == '/' { 1 } else { 0 };
    proof {
        lemma_meaningful_end_stops(path@, end as nat);
    }
    if last <= root {
        let mut list: Vec<String> = Vec::new();
        if root > 0 {
            list.push("/".to_owned());
            proof {
                reveal_strlit("/");
                assert("/"@ =~= seq!['/']);
                assert(list@.map_values(|name: String| name@) =~= seq![seq!['/']]);
            }
        } else {
            assert(list@.map_values(|name: String| name@) =~= Seq::<Seq<char>>::empty());
        }
        return list;
    }
    proof {
        lemma_component_nonempty(path@, last as nat);
    }
    let start = find_component_start(path, last);
    let mut list = list_components(path, start);
    let ghost before = list@.map_values(|name: String| name@);
    let name = text_between(path, start, last);
    list.push(name);
    assert(list@.map_values(|name: String| name@) =~= before.push(name@));
    list
}

/// `Path::eq`.
pub fn same_path(first: &str, second: &str) -> (same: bool)
    ensures
        same == same_components(first@, second@),
{
    let first_chars = chars_of(first);
    let second_chars = chars_of(second);
    let ours = list_components(&first_chars, first_chars.len());
    let theirs = list_components(&second_chars, second_chars.len());
    let ghost our_names = ours@.map_values(|name: String| name@);
    let ghost their_names = theirs@.map_values(|name: String| name@);
    if ours.len() != theirs.len() {
        assert(our_names.len() != their_names.len());
        return false;
    }
    for at in 0..ours.len()
        invariant
            ours@.len() == theirs@.len(),
            our_names == ours@.map_values(|name: String| name@),
            their_names == theirs@.map_values(|name: String| name@),
            forall|i: int| 0 <= i < at ==> our_names[i] == their_names[i],
            our_names == components(first@, first@.len()),
            their_names == components(second@, second@.len()),
    {
        if !same_text(ours[at].as_str(), theirs[at].as_str()) {
            assert(our_names[at as int] != their_names[at as int]);
            return false;
        }
    }
    assert(our_names =~= their_names);
    true
}

// ---------------------------------------------------------------------------
// What the models promise
// ---------------------------------------------------------------------------

/// A name that can stand below a directory.
pub open spec fn is_plain_name(name: Seq<char>) -> bool {
    name.len() > 0 && !name.contains('/') && name != seq!['.'] && name != seq!['.', '.']
}

/// A path that ends in neither a separator nor a dot that stands alone.
pub open spec fn ends_in_a_name(path: Seq<char>) -> bool {
    path.len() > 0 && path.last() != '/' && !(path.len() >= 2 && path.last() == '.' && path[path.len()
        - 2] == '/')
}

proof fn lemma_start_of_name(path: Seq<char>, end: nat, len: nat)
    requires
        len <= end <= path.len(),
        forall|i: int| end - len <= i < end ==> #[trigger] path[i] != '/',
        end == len || path[end - len - 1] == '/',
    ensures
        component_start(path, end) == end - len,
    decreases len,
{
    if len > 0 {
        assert(path[end - 1] != '/');
        lemma_start_of_name(path, (end - 1) as nat, (len - 1) as nat);
    }
}

proof fn lemma_shared_front(first: Seq<char>, second: Seq<char>, end: nat)
    requires
        end <= first.len(),
        end <= second.len(),
        root_len(first) == root_len(second),
        forall|i: int| 0 <= i < end ==> #[trigger] first[i] == second[i],
    ensures
        meaningful_end(first, end) == meaningful_end(second, end),
        component_start(first, end) == component_start(second, end),
        meaningful_end(first, end) <= end,
        component_start(first, end) <= end,
    decreases end,
{
    if end > 0 {
        lemma_shared_front(first, second, (end - 1) as nat);
    }
}

proof fn lemma_shared_components(first: Seq<char>, second: Seq<char>, end: nat)
    requires
        end <= first.len(),
        end <= second.len(),
        root_len(first) == root_len(second),
        forall|i: int| 0 <= i < end ==> #[trigger] first[i] == second[i],
    ensures
        components(first, end) == components(second, end),
    decreases end,
{
    lemma_shared_front(first, second, end);
    let last = meaningful_end(first, end);
    lemma_shared_front(first, second, last);
    let start = component_start(first, last);
    if !(last <= root_len(first) || start >= last || last > end) {
        lemma_shared_components(first, second, start);
        assert(first.subrange(start as int, last as int) =~= second.subrange(
            start as int,
            last as int,
        ));
    }
}

proof fn lemma_name_ends(path: Seq<char>, front: Seq<char>, name: Seq<char>)
    requires
        path == front + name,
        front.len() == 0 || front.last() == '/',
        name.len() > 0,
        !name.contains('/'),
        name != seq!['.'],
    ensures
        meaningful_end(path, path.len()) == path.len(),
        component_start(path, path.len()) == front.len(),
        root_len(path) == root_len(front),
        path.subrange(front.len() as int, path.len() as int) == name,
        root_len(path) <= front.len(),
{
    assert forall|i: int| front.len() <= i < path.len() implies #[trigger] path[i] != '/' by {
        assert(path[i] == name[i - front.len()]);
        assert(name.contains(name[i - front.len()]));
    }
    if front.len() > 0 {
        assert(path[front.len() - 1] == '/');
    }
    lemma_start_of_name(path, path.len(), name.len());
    assert(path.subrange(front.len() as int, path.len() as int) =~= name);
    if name.len() == 1 && name[0] == '.' {
        assert(name =~= seq!['.']);
    }
    assert(path[path.len() - 1] != '/');
    if name.len() > 1 {
        assert(path[path.len() - 2] != '/');
    } else {
        assert(path[path.len() - 1] == name[0]);
    }
}

/// A path below a directory has the directory's components and the name, whether or not the
/// directory is written with a separator at its end; the name is the last one, and what is left
/// without it is the directory.
pub proof fn a_joined_name_is_the_last_component(base: Seq<char>, name: Seq<char>)
    requires
        is_plain_name(name),
    ensures
        ({
            let path = joined(base, name);
            &&& components(path, path.len()) == components(base, base.len()).push(name)
            &&& last_name(path) == Some(name)
            &&& ends_in_a_name(base) ==> parent_path(path) == Some(base)
            &&& base == seq!['/'] ==> parent_path(path) == Some(base)
            &&& base.len() == 0 ==> parent_path(path) == Some(base)
        }),
{
    let path = joined(base, name);
    assert(name[0] != '/') by {
        assert(name.contains(name[0]));
    }
    let front = if base.len() > 0 && base.last() != '/' { base.push('/') } else { base };
    assert(path =~= front + name);
    lemma_name_ends(path, front, name);
    let start = front.len();
    lemma_shared_components(path, front, start);
    assert(root_len(front) == root_len(base));
    lemma_shared_components(front, base, base.len());
    lemma_shared_front(path, front, start);
    lemma_shared_front(front, base, base.len());
    lemma_shared_front(path, base, base.len());
    if front.len() > base.len() {
        lemma_idle_separator(base);
        if ends_in_a_name(base) {
            assert(meaningful_end(path, start) == meaningful_end(path, base.len()));
            assert(meaningful_end(base, base.len()) == base.len());
            assert(path.take(base.len() as int) =~= base);
        }
    } else if base.len() == 0 {
        assert(path.take(0) =~= base);
    } else if base == seq!['/'] {
        assert(path.take(1) =~= base);
    }
}

proof fn lemma_idle_separator(base: Seq<char>)
    requires
        base.len() > 0,
    ensures
        components(base.push('/'), base.len() + 1) == components(base, base.len()),
{
    let longer = base.push('/');
    assert(root_len(longer) == root_len(base));
    lemma_shared_components(longer, base, base.len());
    lemma_shared_front(longer, base, base.len());
    assert(meaningful_end(longer, base.len() + 1) == meaningful_end(longer, base.len()));
    let last = meaningful_end(longer, base.len());
    lemma_shared_front(longer, base, last);
}

/// Neither a separator nor a dot of its own at the end makes it another path, and one below a
/// directory is another than the directory.
pub proof fn idle_ends_do_not_count(base: Seq<char>, name: Seq<char>, other: Seq<char>)
    requires
        base.len() > 0,
        is_plain_name(name),
        is_plain_name(other),
    ensures
        same_components(base, base + seq!['/']),
        same_components(base, base + seq!['/', '.']),
        !same_components(base, joined(base, name)),
        same_components(joined(base, name), joined(base, other)) <==> name == other,
{
    lemma_idle_separator(base);
    assert(base + seq!['/'] =~= base.push('/'));
    let dotted = base + seq!['/', '.'];
    assert(dotted =~= base.push('/').push('.'));
    lemma_shared_components(dotted, base.push('/'), base.len() + 1);
    lemma_shared_front(dotted, base.push('/'), base.len() + 1);
    assert(meaningful_end(dotted, dotted.len()) == meaningful_end(dotted, base.len() + 1));
    a_joined_name_is_the_last_component(base, name);
    a_joined_name_is_the_last_component(base, other);
    let own = components(base, base.len());
    assert(own.push(name).len() == own.len() + 1);
    assert(own.push(name).last() == name);
    assert(own.push(other).last() == other);
}

} // verus!
