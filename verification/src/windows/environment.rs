//! Environment blocks.
//!
//! The host finds variables without regard to case, so a block that held both
//! `Path` and `PATH` would lose one of them. Names are folded before they are
//! compared, and the spelling that came last is the one that is written.
use vstd::prelude::*;

verus! {

/// A variable, in UTF-16.
#[derive(Clone, Debug)]
pub struct EnvEntry {
    pub name: Vec<u16>,
    pub value: Vec<u16>,
}

/// A change to the environment: a new value, or none to drop the variable.
#[derive(Clone, Debug)]
pub struct EnvOverride {
    pub name: Vec<u16>,
    pub value: Option<Vec<u16>>,
}

/// A unit with ASCII letters in upper case.
pub open spec fn upper_unit(unit: u16) -> u16 {
    if 97 <= unit <= 122 { (unit - 32) as u16 } else { unit }
}

/// The name by which a variable is found.
pub open spec fn folded(name: Seq<u16>) -> Seq<u16> {
    name.map_values(|unit: u16| upper_unit(unit))
}

/// Whether a name sorts before another, unit by unit.
pub open spec fn sorts_before(first: Seq<u16>, second: Seq<u16>) -> bool
    decreases first.len(),
{
    if second.len() == 0 {
        false
    } else if first.len() == 0 {
        true
    } else if first[0] != second[0] {
        first[0] < second[0]
    } else {
        sorts_before(first.drop_first(), second.drop_first())
    }
}

pub proof fn lemma_sorts_before_irreflexive(name: Seq<u16>)
    ensures
        !sorts_before(name, name),
    decreases name.len(),
{
    if name.len() > 0 {
        lemma_sorts_before_irreflexive(name.drop_first());
    }
}

pub proof fn lemma_sorts_before_transitive(a: Seq<u16>, b: Seq<u16>, c: Seq<u16>)
    requires
        sorts_before(a, b),
        sorts_before(b, c),
    ensures
        sorts_before(a, c),
    decreases a.len(),
{
    if a.len() > 0 && b.len() > 0 && c.len() > 0 && a[0] == b[0] && b[0] == c[0] {
        lemma_sorts_before_transitive(a.drop_first(), b.drop_first(), c.drop_first());
    }
}

pub proof fn lemma_sorts_before_total(a: Seq<u16>, b: Seq<u16>)
    ensures
        sorts_before(a, b) || a == b || sorts_before(b, a),
    decreases a.len(),
{
    if a.len() == 0 && b.len() == 0 {
        assert(a =~= b);
    } else if a.len() > 0 && b.len() > 0 && a[0] == b[0] {
        lemma_sorts_before_total(a.drop_first(), b.drop_first());
        if a.drop_first() == b.drop_first() {
            assert(a =~= seq![a[0]] + a.drop_first());
            assert(b =~= seq![b[0]] + b.drop_first());
        }
    }
}

/// What a list of variables says: a later one replaces an earlier one of the
/// same folded name.
pub open spec fn base_map(base: Seq<EnvEntry>) -> Map<Seq<u16>, (Seq<u16>, Seq<u16>)>
    decreases base.len(),
{
    if base.len() == 0 {
        Map::empty()
    } else {
        let last = base.last();
        base_map(base.drop_last()).insert(folded(last.name@), (last.name@, last.value@))
    }
}

/// What is left of a base after changes, in order.
pub open spec fn env_map(base: Seq<EnvEntry>, overrides: Seq<EnvOverride>) -> Map<
    Seq<u16>,
    (Seq<u16>, Seq<u16>),
>
    decreases overrides.len(),
{
    if overrides.len() == 0 {
        base_map(base)
    } else {
        let last = overrides.last();
        let before = env_map(base, overrides.drop_last());
        match last.value {
            Some(value) => before.insert(folded(last.name@), (last.name@, value@)),
            None => before.remove(folded(last.name@)),
        }
    }
}

pub open spec fn key_at(list: Seq<EnvEntry>, i: int) -> Seq<u16> {
    folded(list[i].name@)
}

/// Whether names ascend, and so occur once each.
pub open spec fn ascending(list: Seq<EnvEntry>) -> bool {
    forall|i: int, j: int|
        0 <= i < j < list.len() ==> sorts_before(#[trigger] key_at(list, i), #[trigger] key_at(
            list,
            j,
        ))
}

/// Whether a list holds exactly what a map says, in ascending order.
pub open spec fn lists(list: Seq<EnvEntry>, map: Map<Seq<u16>, (Seq<u16>, Seq<u16>)>) -> bool {
    &&& ascending(list)
    &&& forall|i: int|
        0 <= i < list.len() ==> map.dom().contains(#[trigger] key_at(list, i)) && map[key_at(
            list,
            i,
        )] == (list[i].name@, list[i].value@)
    &&& forall|key: Seq<u16>| #[trigger]
        map.dom().contains(key) ==> exists|i: int|
            0 <= i < list.len() && #[trigger] key_at(list, i) == key
}

fn fold_name(name: &Vec<u16>) -> (key: Vec<u16>)
    ensures
        key@ == folded(name@),
{
    let mut key: Vec<u16> = Vec::new();
    for at in 0..name.len()
        invariant
            key@ == folded(name@).take(at as int),
    {
        let unit: u16 = name[at];
        key.push(
            if 97 <= unit && unit <= 122 {
                unit - 32
            } else {
                unit
            },
        );
        assert(key@ =~= folded(name@).take(at + 1));
    }
    assert(key@ =~= folded(name@));
    key
}

/// Whether `first` sorts before `second`.
fn is_before(first: &Vec<u16>, second: &Vec<u16>) -> (before: bool)
    ensures
        before == sorts_before(first@, second@),
{
    let mut at: usize = 0;
    assert(first@.skip(0) =~= first@);
    assert(second@.skip(0) =~= second@);
    while at < first.len() && at < second.len()
        invariant
            at <= first@.len(),
            at <= second@.len(),
            sorts_before(first@, second@) == sorts_before(
                first@.skip(at as int),
                second@.skip(at as int),
            ),
        decreases first@.len() - at,
    {
        if first[at] != second[at] {
            return first[at] < second[at];
        }
        assert(first@.skip(at as int).drop_first() =~= first@.skip(at + 1));
        assert(second@.skip(at as int).drop_first() =~= second@.skip(at + 1));
        at += 1;
    }
    at < second.len()
}

/// Where a name belongs, and whether it is there.
fn find_name(list: &Vec<EnvEntry>, key: &Vec<u16>) -> (found: (usize, bool))
    requires
        ascending(list@),
    ensures
        found.0 <= list@.len(),
        forall|i: int| 0 <= i < found.0 ==> sorts_before(#[trigger] key_at(list@, i), key@),
        found.1 ==> found.0 < list@.len() && key_at(list@, found.0 as int) == key@,
        !found.1 ==> forall|i: int|
            found.0 <= i < list@.len() ==> sorts_before(key@, #[trigger] key_at(list@, i)),
{
    let mut at: usize = 0;
    while at < list.len()
        invariant
            at <= list@.len(),
            ascending(list@),
            forall|i: int| 0 <= i < at ==> sorts_before(#[trigger] key_at(list@, i), key@),
        decreases list@.len() - at,
    {
        let here = fold_name(&list[at].name);
        assert(here@ == key_at(list@, at as int));
        if !is_before(&here, key) {
            let same = !is_before(key, &here);
            proof {
                lemma_sorts_before_total(here@, key@);
                lemma_sorts_before_irreflexive(key@);
                if !same {
                    assert forall|i: int| at <= i < list@.len() implies sorts_before(
                        key@,
                        #[trigger] key_at(list@, i),
                    ) by {
                        if i > at {
                            lemma_sorts_before_transitive(key@, here@, key_at(list@, i));
                        }
                    }
                }
            }
            return (at, same);
        }
        at += 1;
    }
    (at, false)
}

fn set_variable(
    list: &mut Vec<EnvEntry>,
    entry: EnvEntry,
    Ghost(map): Ghost<Map<Seq<u16>, (Seq<u16>, Seq<u16>)>>,
)
    requires
        lists(old(list)@, map),
    ensures
        lists(final(list)@, map.insert(folded(entry.name@), (entry.name@, entry.value@))),
{
    let key = fold_name(&entry.name);
    let (at, there) = find_name(list, &key);
    let ghost before = list@;
    let ghost grown = map.insert(folded(entry.name@), (entry.name@, entry.value@));
    proof {
        lemma_sorts_before_irreflexive(key@);
    }
    if there {
        list[at] = entry;
        proof {
            assert forall|i: int| 0 <= i < list@.len() implies #[trigger] key_at(list@, i)
                == key_at(before, i) by {
            }
            assert forall|i: int, j: int| 0 <= i < j < list@.len() implies sorts_before(
                #[trigger] key_at(list@, i),
                #[trigger] key_at(list@, j),
            ) by {
                assert(sorts_before(key_at(before, i), key_at(before, j)));
            }
            assert forall|i: int| 0 <= i < list@.len() implies grown.dom().contains(
                #[trigger] key_at(list@, i),
            ) && grown[key_at(list@, i)] == (list@[i].name@, list@[i].value@) by {
                if i != at {
                    assert(map.dom().contains(key_at(before, i)));
                    if i < at {
                        assert(sorts_before(key_at(before, i), key@));
                    } else {
                        assert(sorts_before(key_at(before, at as int), key_at(before, i)));
                    }
                }
            }
            assert forall|k: Seq<u16>| #[trigger] grown.dom().contains(k) implies exists|i: int|
                0 <= i < list@.len() && #[trigger] key_at(list@, i) == k by {
                if k == key@ {
                    assert(key_at(list@, at as int) == k);
                } else {
                    assert(map.dom().contains(k));
                    let i = choose|i: int|
                        0 <= i < before.len() && #[trigger] key_at(before, i) == k;
                    assert(key_at(list@, i) == k);
                }
            }
        }
    } else {
        list.insert(at, entry);
        proof {
            assert forall|i: int| 0 <= i < list@.len() implies #[trigger] key_at(list@, i) == (
            if i < at {
                key_at(before, i)
            } else if i == at {
                key@
            } else {
                key_at(before, i - 1)
            }) by {
            }
            assert forall|i: int, j: int| 0 <= i < j < list@.len() implies sorts_before(
                #[trigger] key_at(list@, i),
                #[trigger] key_at(list@, j),
            ) by {
                let a = if i < at { i } else { i - 1 };
                let b = if j < at { j } else { j - 1 };
                if i == at {
                    assert(sorts_before(key@, key_at(before, b)));
                } else if j == at {
                    assert(sorts_before(key_at(before, a), key@));
                } else {
                    assert(sorts_before(key_at(before, a), key_at(before, b)));
                }
            }
            assert forall|i: int| 0 <= i < list@.len() implies grown.dom().contains(
                #[trigger] key_at(list@, i),
            ) && grown[key_at(list@, i)] == (list@[i].name@, list@[i].value@) by {
                if i != at {
                    let a = if i < at { i } else { i - 1 };
                    assert(map.dom().contains(key_at(before, a)));
                    assert(list@[i] == before[a]);
                    if i < at {
                        assert(sorts_before(key_at(before, a), key@));
                    } else {
                        assert(sorts_before(key@, key_at(before, a)));
                    }
                }
            }
            assert forall|k: Seq<u16>| #[trigger] grown.dom().contains(k) implies exists|i: int|
                0 <= i < list@.len() && #[trigger] key_at(list@, i) == k by {
                if k == key@ {
                    assert(key_at(list@, at as int) == k);
                } else {
                    assert(map.dom().contains(k));
                    let i = choose|i: int|
                        0 <= i < before.len() && #[trigger] key_at(before, i) == k;
                    if i < at {
                        assert(key_at(list@, i) == k);
                    } else {
                        assert(key_at(list@, i + 1) == k);
                    }
                }
            }
        }
    }
}

fn drop_variable(
    list: &mut Vec<EnvEntry>,
    name: &Vec<u16>,
    Ghost(map): Ghost<Map<Seq<u16>, (Seq<u16>, Seq<u16>)>>,
)
    requires
        lists(old(list)@, map),
    ensures
        lists(final(list)@, map.remove(folded(name@))),
{
    let key = fold_name(name);
    let (at, there) = find_name(list, &key);
    let ghost before = list@;
    let ghost less = map.remove(folded(name@));
    proof {
        lemma_sorts_before_irreflexive(key@);
    }
    if there {
        list.remove(at);
        proof {
            assert forall|i: int| 0 <= i < list@.len() implies #[trigger] key_at(list@, i) == (
            if i < at {
                key_at(before, i)
            } else {
                key_at(before, i + 1)
            }) by {
            }
            assert forall|i: int, j: int| 0 <= i < j < list@.len() implies sorts_before(
                #[trigger] key_at(list@, i),
                #[trigger] key_at(list@, j),
            ) by {
                let a = if i < at { i } else { i + 1 };
                let b = if j < at { j } else { j + 1 };
                assert(sorts_before(key_at(before, a), key_at(before, b)));
            }
            assert forall|i: int| 0 <= i < list@.len() implies less.dom().contains(
                #[trigger] key_at(list@, i),
            ) && less[key_at(list@, i)] == (list@[i].name@, list@[i].value@) by {
                let a = if i < at { i } else { i + 1 };
                assert(map.dom().contains(key_at(before, a)));
                assert(list@[i] == before[a]);
                if i < at {
                    assert(sorts_before(key_at(before, a), key@));
                } else {
                    assert(sorts_before(key_at(before, at as int), key_at(before, a)));
                }
            }
            assert forall|k: Seq<u16>| #[trigger] less.dom().contains(k) implies exists|i: int|
                0 <= i < list@.len() && #[trigger] key_at(list@, i) == k by {
                assert(map.dom().contains(k));
                let i = choose|i: int| 0 <= i < before.len() && #[trigger] key_at(before, i) == k;
                if i < at {
                    assert(key_at(list@, i) == k);
                } else {
                    assert(i != at);
                    assert(key_at(list@, i - 1) == k);
                }
            }
        }
    } else {
        proof {
            assert forall|i: int| 0 <= i < list@.len() implies less.dom().contains(
                #[trigger] key_at(list@, i),
            ) && less[key_at(list@, i)] == (list@[i].name@, list@[i].value@) by {
                assert(map.dom().contains(key_at(before, i)));
                if i < at {
                    assert(sorts_before(key_at(before, i), key@));
                } else {
                    assert(sorts_before(key@, key_at(before, i)));
                }
            }
            assert forall|k: Seq<u16>| #[trigger] less.dom().contains(k) implies exists|i: int|
                0 <= i < list@.len() && #[trigger] key_at(list@, i) == k by {
                assert(map.dom().contains(k));
            }
        }
    }
}

/// The variables of a base after changes, one of each name, in ascending order.
pub fn merge_environment(base: Vec<EnvEntry>, overrides: Vec<EnvOverride>) -> (list: Vec<EnvEntry>)
    ensures
        lists(list@, env_map(base@, overrides@)),
{
    let mut list: Vec<EnvEntry> = Vec::new();
    let mut at: usize = 0;
    while at < base.len()
        invariant
            at <= base@.len(),
            lists(list@, base_map(base@.take(at as int))),
        decreases base@.len() - at,
    {
        let entry = EnvEntry { name: copy_units(&base[at].name), value: copy_units(&base[at].value) };
        proof {
            let upto = base@.take(at + 1);
            assert(upto.drop_last() =~= base@.take(at as int));
        }
        set_variable(&mut list, entry, Ghost(base_map(base@.take(at as int))));
        at += 1;
    }
    assert(base@.take(base@.len() as int) =~= base@);
    assert(overrides@.take(0) =~= Seq::<EnvOverride>::empty());
    at = 0;
    while at < overrides.len()
        invariant
            at <= overrides@.len(),
            lists(list@, env_map(base@, overrides@.take(at as int))),
        decreases overrides@.len() - at,
    {
        proof {
            let upto = overrides@.take(at + 1);
            assert(upto.drop_last() =~= overrides@.take(at as int));
        }
        match &overrides[at].value {
            Some(value) => {
                let entry = EnvEntry {
                    name: copy_units(&overrides[at].name),
                    value: copy_units(value),
                };
                set_variable(
                    &mut list,
                    entry,
                    Ghost(env_map(base@, overrides@.take(at as int))),
                );
            },
            None => {
                drop_variable(
                    &mut list,
                    &overrides[at].name,
                    Ghost(env_map(base@, overrides@.take(at as int))),
                );
            },
        }
        at += 1;
    }
    assert(overrides@.take(overrides@.len() as int) =~= overrides@);
    list
}

fn copy_units(units: &Vec<u16>) -> (copy: Vec<u16>)
    ensures
        copy@ == units@,
{
    let mut copy: Vec<u16> = Vec::new();
    copy.extend_from_slice(units.as_slice());
    assert(copy@ =~= units@);
    copy
}

/// Variables as the host takes them: `name=value` and a zero, each.
pub open spec fn entries_block(list: Seq<EnvEntry>) -> Seq<u16>
    decreases list.len(),
{
    if list.len() == 0 {
        Seq::empty()
    } else {
        entries_block(list.drop_last()) + list.last().name@ + seq![61u16] + list.last().value@
            + seq![0u16]
    }
}

/// A block: its variables and a closing zero. One without variables has two
/// zeros, because the host looks for an empty variable and then the end.
pub open spec fn block_of(list: Seq<EnvEntry>) -> Seq<u16> {
    let entries = entries_block(list);
    if entries.len() == 0 { seq![0u16, 0u16] } else { entries.push(0) }
}

fn write_block(list: &Vec<EnvEntry>) -> (block: Vec<u16>)
    ensures
        block@ == block_of(list@),
{
    let mut block: Vec<u16> = Vec::new();
    for at in 0..list.len()
        invariant
            block@ == entries_block(list@.take(at as int)),
    {
        let ghost before = block@;
        block.extend_from_slice(list[at].name.as_slice());
        block.push(61);
        block.extend_from_slice(list[at].value.as_slice());
        block.push(0);
        proof {
            let upto = list@.take(at + 1);
            assert(upto.drop_last() =~= list@.take(at as int));
            assert(block@ =~= before + list@[at as int].name@ + seq![61u16]
                + list@[at as int].value@ + seq![0u16]);
        }
    }
    assert(list@.take(list@.len() as int) =~= list@);
    if block.len() == 0 {
        block.push(0);
    }
    block.push(0);
    assert(block@ =~= block_of(list@));
    block
}

/// The block for a base environment and changes to it.
pub fn build_env_block(overrides: Vec<EnvOverride>, base: Vec<EnvEntry>) -> (block: Vec<u16>)
    ensures
        exists|list: Seq<EnvEntry>| #[trigger]
            lists(list, env_map(base@, overrides@)) && block@ == block_of(list),
{
    let list = merge_environment(base, overrides);
    write_block(&list)
}

/// No two variables of a block have names that differ only in case.
pub proof fn listed_names_differ(
    list: Seq<EnvEntry>,
    map: Map<Seq<u16>, (Seq<u16>, Seq<u16>)>,
    i: int,
    j: int,
)
    requires
        lists(list, map),
        0 <= i < list.len(),
        0 <= j < list.len(),
        folded(list[i].name@) == folded(list[j].name@),
    ensures
        i == j,
{
    lemma_sorts_before_irreflexive(key_at(list, i));
    if i < j {
        assert(sorts_before(key_at(list, i), key_at(list, j)));
    } else if j < i {
        assert(sorts_before(key_at(list, j), key_at(list, i)));
    }
}

/// There is only one way to list what a map says.
pub proof fn listing_is_unique(
    first: Seq<EnvEntry>,
    second: Seq<EnvEntry>,
    map: Map<Seq<u16>, (Seq<u16>, Seq<u16>)>,
)
    requires
        lists(first, map),
        lists(second, map),
    ensures
        block_of(first) == block_of(second),
    decreases first.len(),
{
    lemma_listing_unique(first, second, map);
}

proof fn lemma_listing_unique(
    first: Seq<EnvEntry>,
    second: Seq<EnvEntry>,
    map: Map<Seq<u16>, (Seq<u16>, Seq<u16>)>,
)
    requires
        lists(first, map),
        lists(second, map),
    ensures
        entries_block(first) == entries_block(second),
    decreases first.len(),
{
    if first.len() == 0 {
        if second.len() > 0 {
            assert(map.dom().contains(key_at(second, 0)));
        }
    } else if second.len() == 0 {
        assert(map.dom().contains(key_at(first, 0)));
    } else {
        let a = first.len() - 1;
        let b = second.len() - 1;
        let ka = key_at(first, a);
        let kb = key_at(second, b);
        assert(map.dom().contains(ka) && map.dom().contains(kb));
        let i = choose|i: int| 0 <= i < second.len() && #[trigger] key_at(second, i) == ka;
        let j = choose|j: int| 0 <= j < first.len() && #[trigger] key_at(first, j) == kb;
        if ka != kb {
            assert(sorts_before(key_at(second, i), key_at(second, b)));
            assert(sorts_before(key_at(first, j), key_at(first, a)));
            lemma_sorts_before_transitive(ka, kb, ka);
            lemma_sorts_before_irreflexive(ka);
        }
        let less = map.remove(ka);
        lemma_listing_without_last(first, map);
        lemma_listing_without_last(second, map);
        lemma_listing_unique(first.drop_last(), second.drop_last(), less);
    }
}

proof fn lemma_listing_without_last(
    list: Seq<EnvEntry>,
    map: Map<Seq<u16>, (Seq<u16>, Seq<u16>)>,
)
    requires
        lists(list, map),
        list.len() > 0,
    ensures
        lists(list.drop_last(), map.remove(key_at(list, list.len() - 1))),
{
    let last = list.len() - 1;
    let key = key_at(list, last);
    let short = list.drop_last();
    let less = map.remove(key);
    lemma_sorts_before_irreflexive(key);
    assert forall|i: int| 0 <= i < short.len() implies #[trigger] key_at(short, i) == key_at(
        list,
        i,
    ) by {
    }
    assert forall|i: int, j: int| 0 <= i < j < short.len() implies sorts_before(
        #[trigger] key_at(short, i),
        #[trigger] key_at(short, j),
    ) by {
        assert(sorts_before(key_at(list, i), key_at(list, j)));
    }
    assert forall|i: int| 0 <= i < short.len() implies less.dom().contains(
        #[trigger] key_at(short, i),
    ) && less[key_at(short, i)] == (short[i].name@, short[i].value@) by {
        assert(map.dom().contains(key_at(list, i)));
        assert(sorts_before(key_at(list, i), key));
    }
    assert forall|k: Seq<u16>| #[trigger] less.dom().contains(k) implies exists|i: int|
        0 <= i < short.len() && #[trigger] key_at(short, i) == k by {
        assert(map.dom().contains(k));
        let i = choose|i: int| 0 <= i < list.len() && #[trigger] key_at(list, i) == k;
        assert(key_at(short, i) == k);
    }
}

/// The last change to a name decides, whatever case it is spelled in.
pub proof fn last_change_decides(
    base: Seq<EnvEntry>,
    overrides: Seq<EnvOverride>,
    change: EnvOverride,
    name: Seq<u16>,
)
    requires
        folded(name) == folded(change.name@),
    ensures
        match change.value {
            Some(value) => env_map(base, overrides.push(change)).dom().contains(folded(name))
                && env_map(base, overrides.push(change))[folded(name)] == (
                change.name@,
                value@,
            ),
            None => !env_map(base, overrides.push(change)).dom().contains(folded(name)),
        },
{
    assert(overrides.push(change).drop_last() =~= overrides);
}

// ---------------------------------------------------------------------------
// Reading a block
// ---------------------------------------------------------------------------

/// Where the first zero from `at` on stands, or the end.
pub open spec fn zero_from(block: Seq<u16>, at: int) -> int
    decreases block.len() - at,
{
    if at < 0 || at >= block.len() || block[at] == 0 {
        at
    } else {
        zero_from(block, at + 1)
    }
}

/// The entries that a process finds in its block: texts that end with a zero each, up
/// to an empty one.
pub open spec fn read_block(block: Seq<u16>, at: int) -> Seq<Seq<u16>>
    decreases block.len() - at,
{
    if at < 0 || at >= block.len() || block[at] == 0 {
        Seq::empty()
    } else {
        let end = zero_from(block, at);
        if end <= at || end >= block.len() {
            Seq::empty()
        } else {
            seq![block.subrange(at, end)] + read_block(block, end + 1)
        }
    }
}

/// A variable as it stands in a block.
pub open spec fn entry_text(entry: EnvEntry) -> Seq<u16> {
    entry.name@ + seq![61u16] + entry.value@
}

pub open spec fn entry_texts(list: Seq<EnvEntry>) -> Seq<Seq<u16>> {
    list.map_values(|entry: EnvEntry| entry_text(entry))
}

/// A process finds in its block what was put there, in order, as long as no name and
/// no value holds a zero itself.
pub proof fn written_blocks_are_read_back(list: Seq<EnvEntry>)
    requires
        forall|i: int|
            0 <= i < list.len() ==> !(#[trigger] list[i]).name@.contains(0)
                && !list[i].value@.contains(0),
    ensures
        read_block(block_of(list), 0) == entry_texts(list),
{
    let entries = entries_block(list);
    lemma_block_start(list);
    if list.len() == 0 {
        assert(read_block(block_of(list), 0) =~= entry_texts(list));
    } else {
        lemma_read_entries(list, Seq::empty(), seq![0u16]);
        assert(Seq::<u16>::empty() + entries + seq![0u16] =~= block_of(list));
    }
}

proof fn lemma_block_start(list: Seq<EnvEntry>)
    ensures
        list.len() > 0 ==> entries_block(list).len() > 0,
        list.len() == 0 ==> entries_block(list).len() == 0,
{
}

/// The entries of a list without the first, after the first.
proof fn lemma_entries_front(list: Seq<EnvEntry>)
    requires
        list.len() > 0,
    ensures
        entries_block(list) == entry_text(list[0]) + seq![0u16] + entries_block(list.drop_first()),
    decreases list.len(),
{
    if list.len() == 1 {
        assert(list.drop_last() =~= Seq::<EnvEntry>::empty());
        assert(list.drop_first() =~= Seq::<EnvEntry>::empty());
        assert(entries_block(list) =~= entry_text(list[0]) + seq![0u16] + entries_block(
            list.drop_first(),
        ));
    } else {
        let front = list.drop_last();
        lemma_entries_front(front);
        assert(front.drop_first() =~= list.drop_first().drop_last());
        assert(list.drop_first().last() == list.last());
        assert(front[0] == list[0]);
        assert(entries_block(list) =~= entry_text(list[0]) + seq![0u16] + entries_block(
            list.drop_first(),
        ));
    }
}

proof fn lemma_zero_from(block: Seq<u16>, at: int, end: int)
    requires
        0 <= at <= end < block.len(),
        block[end] == 0,
        forall|i: int| at <= i < end ==> block[i] != 0,
    ensures
        zero_from(block, at) == end,
    decreases end - at,
{
    if at < end {
        lemma_zero_from(block, at + 1, end);
    }
}

proof fn lemma_read_entries(list: Seq<EnvEntry>, before: Seq<u16>, after: Seq<u16>)
    requires
        forall|i: int|
            0 <= i < list.len() ==> !(#[trigger] list[i]).name@.contains(0)
                && !list[i].value@.contains(0),
        after.len() > 0,
        after[0] == 0,
    ensures
        read_block(before + entries_block(list) + after, before.len() as int) == entry_texts(list),
    decreases list.len(),
{
    let block = before + entries_block(list) + after;
    let at = before.len() as int;
    if list.len() == 0 {
        assert(block[at] == after[0]);
        assert(entry_texts(list) =~= Seq::<Seq<u16>>::empty());
    } else {
        let text = entry_text(list[0]);
        let rest = list.drop_first();
        lemma_entries_front(list);
        let end = at + text.len();
        assert(block =~= before + text + seq![0u16] + entries_block(rest) + after);
        assert forall|i: int| at <= i < end implies block[i] != 0 by {
            let k = i - at;
            assert(block[i] == text[k]);
            let name = list[0].name@;
            let value = list[0].value@;
            if k < name.len() {
                assert(text[k] == name[k]);
                assert(name.contains(name[k]));
            } else if k > name.len() {
                assert(text[k] == value[k - name.len() - 1]);
                assert(value.contains(value[k - name.len() - 1]));
            }
        }
        lemma_zero_from(block, at, end);
        assert(block.subrange(at, end) =~= text);
        assert forall|i: int| 0 <= i < rest.len() implies !(#[trigger] rest[i]).name@.contains(0)
            && !rest[i].value@.contains(0) by {
            assert(rest[i] == list[i + 1]);
        }
        let longer = before + text + seq![0u16];
        lemma_read_entries(rest, longer, after);
        assert(block =~= longer + entries_block(rest) + after);
        assert(entry_texts(list) =~= seq![text] + entry_texts(rest));
    }
}

/// Names sort by the first unit in which they differ, the lower one first; and one that another
/// goes on from sorts before it.
pub proof fn names_sort_by_the_first_difference(
    shared: Seq<u16>,
    low: u16,
    high: u16,
    first: Seq<u16>,
    second: Seq<u16>,
)
    requires
        low < high,
    ensures
        sorts_before(shared + seq![low] + first, shared + seq![high] + second),
        !sorts_before(shared + seq![high] + second, shared + seq![low] + first),
        sorts_before(shared, shared + seq![low] + first),
        !sorts_before(shared + seq![low] + first, shared),
    decreases shared.len(),
{
    let a = shared + seq![low] + first;
    let b = shared + seq![high] + second;
    if shared.len() > 0 {
        let rest = shared.drop_first();
        names_sort_by_the_first_difference(rest, low, high, first, second);
        assert(a.drop_first() =~= rest + seq![low] + first);
        assert(b.drop_first() =~= rest + seq![high] + second);
    }
}

/// Two names are one if they differ in the case of letters from A to Z alone.
pub proof fn names_are_one_whatever_their_case(first: Seq<u16>, second: Seq<u16>)
    ensures
        folded(first) == folded(second) <==> {
            &&& first.len() == second.len()
            &&& forall|i: int|
                0 <= i < first.len() ==> {
                    ||| #[trigger] first[i] == second[i]
                    ||| 65 <= first[i] <= 90 && second[i] == first[i] + 32
                    ||| 65 <= second[i] <= 90 && first[i] == second[i] + 32
                }
        },
{
    let a = folded(first);
    let b = folded(second);
    if a == b {
        assert forall|i: int| 0 <= i < first.len() implies {
            ||| #[trigger] first[i] == second[i]
            ||| 65 <= first[i] <= 90 && second[i] == first[i] + 32
            ||| 65 <= second[i] <= 90 && first[i] == second[i] + 32
        } by {
            assert(a[i] == upper_unit(first[i]) && b[i] == upper_unit(second[i]));
        }
    } else if first.len() == second.len() {
        assert(exists|i: int| 0 <= i < first.len() && a[i] != b[i]) by {
            if forall|i: int| 0 <= i < first.len() ==> a[i] == b[i] {
                assert(a =~= b);
            }
        }
        let i = choose|i: int| 0 <= i < first.len() && a[i] != b[i];
        assert(a[i] == upper_unit(first[i]) && b[i] == upper_unit(second[i]));
    }
}

/// A block is the entries in order, each with its sign between name and value and ended by a
/// zero, and one more zero.
pub proof fn blocks_end_in_two_zeros(list: Seq<EnvEntry>, entry: EnvEntry)
    ensures
        block_of(Seq::empty()) == seq![0u16, 0u16],
        block_of(seq![entry]) == entry.name@ + seq![61u16] + entry.value@ + seq![0u16, 0u16],
        list.len() > 0 ==> block_of(list.push(entry)) == block_of(list).drop_last() + block_of(
            seq![entry],
        ),
{
    reveal_with_fuel(entries_block, 2);
    let one = seq![entry];
    assert(one.drop_last() =~= Seq::empty());
    assert(one.last() == entry);
    assert(block_of(one) =~= entry.name@ + seq![61u16] + entry.value@ + seq![0u16, 0u16]);
    if list.len() > 0 {
        let longer = list.push(entry);
        assert(longer.drop_last() =~= list);
        assert(longer.last() == entry);
        assert(entries_block(list).len() > 0);
        assert(block_of(list).drop_last() =~= entries_block(list));
        assert(block_of(longer) =~= block_of(list).drop_last() + block_of(one));
    }
}

} // verus!
