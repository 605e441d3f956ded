//! Who may open a file or directory: access lists in their binary and textual
//! form, and the policy that only the owner and the system get in.
use vstd::prelude::*;
use vstd::string::StringExecFns;

use crate::host::{HostError, HostErrorKind};
use crate::strings::{
    decimal, decimal_text, has_char, has_text, join2, join3, lemma_split_concat, lemma_split_nonempty,
    lemma_split_whole, list_has, lists_text, occurs_at, occurs_in, same_text, split_on, split_text, starts_with,
    strip_front, text_list,
};

verus! {

// ---------------------------------------------------------------------------
// Binary access lists
// ---------------------------------------------------------------------------

/// The binary identifier of the system account.
pub open spec fn system_sid() -> Seq<u8> {
    seq![1, 1, 0, 0, 0, 0, 0, 5, 18, 0, 0, 0]
}

/// A 16-bit number, low byte first.
pub open spec fn le16(bytes: Seq<u8>, at: int) -> int {
    bytes[at] + 256 * bytes[at + 1]
}

/// The flags that an entry may have: set on the object itself, inherited by a
/// file, or inherited by a directory that hands it on.
pub open spec fn entry_flags_fit(flags: u8) -> bool {
    flags == 0 || flags == 0x10 || flags == 0x13
}

/// An entry that allows `principal` full control, byte for byte.
pub open spec fn full_control_entry(flags: u8, principal: Seq<u8>) -> Seq<u8> {
    let size = 8 + principal.len();
    seq![
        0u8,
        flags,
        (size % 256) as u8,
        (size / 256) as u8,
        0xff,
        0x01,
        0x1f,
        0x00,
    ] + principal
}

/// Whether a full-control entry for `principal` stands at `offset`.
pub open spec fn entry_at(dacl: Seq<u8>, offset: int, principal: Seq<u8>) -> bool {
    let end = offset + 8 + principal.len();
    &&& 8 + principal.len() <= 0xffff
    &&& end <= dacl.len()
    &&& entry_flags_fit(dacl[offset + 1])
    &&& dacl.subrange(offset, end) == full_control_entry(dacl[offset + 1], principal)
}

/// Where the full-control entry for `principal` at `offset` ends, if there is
/// one.
pub fn exact_full_control_ace(dacl: &[u8], offset: usize, principal: &[u8]) -> (end: Option<usize>)
    ensures
        match end {
            Some(end) => entry_at(dacl@, offset as int, principal@) && end == offset + 8
                + principal@.len(),
            None => !entry_at(dacl@, offset as int, principal@),
        },
{
    let total = dacl.len();
    if offset > total || total - offset < 8 || dacl[offset] != 0 {
        proof {
            if entry_at(dacl@, offset as int, principal@) {
                let entry = dacl@.subrange(offset as int, offset + 8 + principal@.len());
                assert(entry[0] == dacl@[offset as int]);
            }
        }
        return None;
    }
    let flags: u8 = dacl[offset + 1];
    if flags != 0 && flags != 0x10 && flags != 0x13 {
        return None;
    }
    let size: usize = dacl[offset + 2] as usize + 256 * dacl[offset + 3] as usize;
    let ghost wanted = full_control_entry(flags, principal@);
    let ghost end = offset + 8 + principal@.len();
    proof {
        if entry_at(dacl@, offset as int, principal@) {
            let entry = dacl@.subrange(offset as int, end);
            assert(entry[2] == dacl@[offset + 2] && entry[3] == dacl@[offset + 3]);
            assert(entry[2] == wanted[2] && entry[3] == wanted[3]);
            assert(size == 8 + principal@.len());
        }
    }
    if size < 8 || size - 8 != principal.len() {
        return None;
    }
    if size > total - offset {
        return None;
    }
    if dacl[offset + 4] != 0xff || dacl[offset + 5] != 0x01 || dacl[offset + 6] != 0x1f || dacl[offset
        + 7] != 0 {
        proof {
            if entry_at(dacl@, offset as int, principal@) {
                let entry = dacl@.subrange(offset as int, end);
                assert(entry[4] == dacl@[offset + 4] && entry[5] == dacl@[offset + 5] && entry[6]
                    == dacl@[offset + 6] && entry[7] == dacl@[offset + 7]);
                assert(entry[4] == wanted[4] && entry[5] == wanted[5] && entry[6] == wanted[6]
                    && entry[7] == wanted[7]);
            }
        }
        return None;
    }
    for at in 0..principal.len()
        invariant
            end == offset + 8 + principal@.len(),
            end <= dacl@.len(),
            total == dacl@.len(),
            wanted == full_control_entry(flags, principal@),
            flags == dacl@[offset + 1],
            forall|i: int| 0 <= i < at ==> dacl@[offset + 8 + i] == #[trigger] principal@[i],
    {
        if dacl[offset + 8 + at] != principal[at] {
            proof {
                if entry_at(dacl@, offset as int, principal@) {
                    let entry = dacl@.subrange(offset as int, end);
                    assert(entry[8 + at] == dacl@[offset + 8 + at]);
                    assert(wanted[8 + at] == principal@[at as int]);
                }
            }
            return None;
        }
    }
    proof {
        let entry = dacl@.subrange(offset as int, end);
        assert(size % 256 == dacl@[offset + 2] && size / 256 == dacl@[offset + 3]);
        assert forall|i: int| 0 <= i < entry.len() implies entry[i] == wanted[i] by {
            assert(entry[i] == dacl@[offset + i]);
            if i >= 8 {
                assert(wanted[i] == principal@[i - 8]);
                assert(dacl@[offset + 8 + (i - 8)] == principal@[i - 8]);
            }
        }
        assert(entry =~= wanted);
    }
    Some(offset + size)
}

/// Whether a list consists of exactly two entries: full control for the user,
/// then full control for the system.
pub open spec fn is_user_system_policy(dacl: Seq<u8>, user: Seq<u8>) -> bool {
    &&& dacl.len() >= 8
    &&& dacl[0] == 2
    &&& le16(dacl, 2) == dacl.len()
    &&& le16(dacl, 4) == 2
    &&& entry_at(dacl, 8, user)
    &&& entry_at(dacl, 16 + user.len() as int, system_sid())
    &&& dacl.len() == 16 + user.len() + 8 + system_sid().len()
}

pub fn dacl_is_exact_user_system_file_policy(dacl: &[u8], current_sid: &[u8]) -> (exact: bool)
    ensures
        exact == is_user_system_policy(dacl@, current_sid@),
{
    if dacl.len() < 8 || dacl[0] != 2 || dacl[2] as usize + 256 * dacl[3] as usize != dacl.len()
        || dacl[4] as usize + 256 * dacl[5] as usize != 2 {
        return false;
    }
    let system: [u8; 12] = [1, 1, 0, 0, 0, 0, 0, 5, 18, 0, 0, 0];
    assert(system@ =~= system_sid());
    let next = match exact_full_control_ace(dacl, 8, current_sid) {
        Some(next) => next,
        None => {
            return false;
        },
    };
    match exact_full_control_ace(dacl, next, &system) {
        Some(end) => end == dacl.len(),
        None => false,
    }
}

/// A list that is accepted holds nothing but two entries, one for the user and one
/// for the system.
pub proof fn accepted_lists_let_two_in(dacl: Seq<u8>, user: Seq<u8>)
    requires
        is_user_system_policy(dacl, user),
    ensures
        exists|first: u8, second: u8|
            entry_flags_fit(first) && entry_flags_fit(second) && dacl.skip(8) == (
            #[trigger] full_control_entry(first, user)) + #[trigger] full_control_entry(
                second,
                system_sid(),
            ),
{
    let next = 16 + user.len() as int;
    let first = dacl[9];
    let second = dacl[next + 1];
    assert(dacl.skip(8) =~= dacl.subrange(8, next) + dacl.subrange(
        next,
        dacl.len() as int,
    ));
    assert(dacl.skip(8) == full_control_entry(first, user) + full_control_entry(
        second,
        system_sid(),
    ));
}

/// No list is accepted as private to two different users.
pub proof fn private_lists_have_one_user(dacl: Seq<u8>, first: Seq<u8>, second: Seq<u8>)
    requires
        is_user_system_policy(dacl, first),
        is_user_system_policy(dacl, second),
    ensures
        first == second,
{
    assert(first.len() == second.len());
    let ours = dacl.subrange(8, (16 + first.len()) as int);
    assert(ours.skip(8) =~= first) by {
        assert(ours == full_control_entry(dacl[9], first));
    }
    assert(ours.skip(8) =~= second) by {
        assert(ours == full_control_entry(dacl[9], second));
    }
}

// ---------------------------------------------------------------------------
// Account identifiers as text
// ---------------------------------------------------------------------------

/// A 48-bit number, high byte first.
pub open spec fn be_number(bytes: Seq<u8>) -> nat
    decreases bytes.len(),
{
    if bytes.len() == 0 { 0 } else { 256 * be_number(bytes.drop_last()) + bytes.last() as nat }
}

/// A 32-bit number, low byte first.
pub open spec fn le32(bytes: Seq<u8>, at: int) -> nat {
    (bytes[at] + 256 * bytes[at + 1] + 65536 * bytes[at + 2] + 16777216 * bytes[at + 3]) as nat
}

/// The sub-authorities of an identifier up to `count`, each after a dash.
pub open spec fn sub_authorities(sid: Seq<u8>, count: nat) -> Seq<char>
    decreases count,
{
    if count == 0 {
        Seq::empty()
    } else {
        sub_authorities(sid, (count - 1) as nat) + "-"@ + decimal(le32(sid, 4 + 4 * count as int))
    }
}

/// An identifier as text: revision, authority, sub-authorities.
pub open spec fn sid_text(sid: Seq<u8>) -> Seq<char> {
    "S-"@ + decimal(sid[0] as nat) + "-"@ + decimal(be_number(sid.subrange(2, 8)))
        + sub_authorities(sid, sid[1] as nat)
}

/// What is wrong with a binary identifier that cannot be spelled.
pub open spec fn is_sid_failure(sid: Seq<u8>, error: HostError) -> bool {
    if sid.len() == 0 {
        error.says(HostErrorKind::InvalidData, "empty current-user SID"@)
    } else if sid.len() == 1 {
        error.says(HostErrorKind::InvalidData, "truncated current-user SID"@)
    } else {
        sid.len() != 8 + 4 * sid[1] && error.says(
            HostErrorKind::InvalidData,
            "invalid current-user SID length"@,
        )
    }
}

/// Spells a binary identifier.
pub fn sid_sddl(sid: &[u8]) -> (text: Result<String, HostError>)
    ensures
        match text {
            Ok(text) => sid@.len() >= 2 && sid@.len() == 8 + 4 * sid@[1] && text@ == sid_text(sid@),
            Err(error) => is_sid_failure(sid@, error),
        },
{
    if sid.len() == 0 {
        return Err(HostError::new(HostErrorKind::InvalidData, "empty current-user SID"));
    }
    if sid.len() == 1 {
        return Err(HostError::new(HostErrorKind::InvalidData, "truncated current-user SID"));
    }
    let count: usize = sid[1] as usize;
    if sid.len() != 8 + count * 4 {
        return Err(HostError::new(HostErrorKind::InvalidData, "invalid current-user SID length"));
    }
    let mut authority: u64 = 0;
    let ghost field = sid@.subrange(2, 8);
    assert(field.take(0) =~= Seq::<u8>::empty());
    for at in 2..8usize
        invariant
            sid@.len() >= 8,
            field == sid@.subrange(2, 8),
            authority == be_number(field.take(at - 2)),
            authority < authority_room(at as int),
    {
        proof {
            assert(field.take(at - 1).drop_last() =~= field.take(at - 2));
            assert(field.take(at - 1).last() == sid@[at as int]);
        }
        authority = authority * 256 + sid[at] as u64;
    }
    assert(field.take(6) =~= field);
    let mut text = join2("S-", decimal_text(sid[0] as u64).as_str());
    text.append("-");
    text.append(decimal_text(authority).as_str());
    let ghost front = text@;
    assert(text@ =~= front + sub_authorities(sid@, 0));
    for index in 0..count
        invariant
            count == sid@[1],
            sid@.len() == 8 + count * 4,
            count <= 255,
            text@ == front + sub_authorities(sid@, index as nat),
    {
        let at: usize = 8 + index * 4;
        let number: u64 = sid[at] as u64 + 256 * sid[at + 1] as u64 + 65536 * sid[at + 2] as u64
            + 16777216 * sid[at + 3] as u64;
        let ghost before = text@;
        text.append("-");
        text.append(decimal_text(number).as_str());
        proof {
            assert(number == le32(sid@, 4 + 4 * (index + 1)));
            assert(text@ =~= front + sub_authorities(sid@, (index + 1) as nat));
        }
    }
    Ok(text)
}

spec fn authority_room(at: int) -> int {
    if at <= 2 {
        1
    } else if at == 3 {
        0x100
    } else if at == 4 {
        0x1_0000
    } else if at == 5 {
        0x100_0000
    } else if at == 6 {
        0x1_0000_0000
    } else if at == 7 {
        0x100_0000_0000
    } else {
        0x1_0000_0000_0000
    }
}

// ---------------------------------------------------------------------------
// Textual access lists
// ---------------------------------------------------------------------------

/// A protected list that gives the user and the system full control, and hands
/// that on to everything below.
pub open spec fn owner_only_text(user: Seq<char>) -> Seq<char> {
    "D:P(A;OICI;FA;;;"@ + user + ")(A;OICI;FA;;;SY)"@
}

pub fn owner_only_sddl(user_sid: &str) -> (sddl: String)
    ensures
        sddl@ == owner_only_text(user_sid@),
{
    join3("D:P(A;OICI;FA;;;", user_sid, ")(A;OICI;FA;;;SY)")
}

/// The list for a private directory of the user with that binary identifier.
pub fn private_dir_sddl(sid: &[u8]) -> (sddl: Result<String, HostError>)
    ensures
        match sddl {
            Ok(sddl) => sid@.len() >= 2 && sid@.len() == 8 + 4 * sid@[1] && sddl@
                == owner_only_text(sid_text(sid@)),
            Err(error) => is_sid_failure(sid@, error),
        },
{
    match sid_sddl(sid) {
        Ok(user) => Ok(owner_only_sddl(user.as_str())),
        Err(error) => Err(error),
    }
}

/// The list for a private file of the user with that binary identifier.
pub fn private_file_sddl(sid: &[u8]) -> (sddl: Result<String, HostError>)
    ensures
        match sddl {
            Ok(sddl) => sid@.len() >= 2 && sid@.len() == 8 + 4 * sid@[1] && sddl@
                == "D:P(A;;FA;;;"@ + sid_text(sid@) + ")(A;;FA;;;SY)"@,
            Err(error) => is_sid_failure(sid@, error),
        },
{
    match sid_sddl(sid) {
        Ok(user) => Ok(join3("D:P(A;;FA;;;", user.as_str(), ")(A;;FA;;;SY)")),
        Err(error) => Err(error),
    }
}

/// The trustee of an entry: the sixth field of what stands before the closing
/// parenthesis.
pub open spec fn entry_trustee(entry: Seq<char>) -> Option<Seq<char>> {
    let fields = split_on(split_on(entry, ')')[0], ';');
    if fields.len() >= 6 { Some(fields[5]) } else { None }
}

/// The trustees of entries, where they have one.
pub open spec fn trustees_of(entries: Seq<Seq<char>>) -> Seq<Seq<char>>
    decreases entries.len(),
{
    if entries.len() == 0 {
        Seq::empty()
    } else {
        let before = trustees_of(entries.drop_last());
        match entry_trustee(entries.last()) {
            Some(trustee) => before.push(trustee),
            None => before,
        }
    }
}

/// The trustees that the body of a list names.
pub open spec fn body_trustees(body: Seq<char>) -> Seq<Seq<char>> {
    trustees_of(split_on(body, '(').skip(1))
}

/// The trustees of every entry of a list.
pub fn aces(body: &str) -> (trustees: Vec<String>)
    ensures
        text_list(trustees@) == body_trustees(body@),
{
    let entries = split_text(body, '(');
    let ghost all = text_list(entries@);
    let ghost after = all.skip(1);
    let mut trustees: Vec<String> = Vec::new();
    proof {
        crate::strings::lemma_split_nonempty(body@, '(');
        assert(text_list(trustees@) =~= Seq::<Seq<char>>::empty());
        assert(after.take(0) =~= Seq::<Seq<char>>::empty());
    }
    for at in 1..entries.len()
        invariant
            all == text_list(entries@),
            after == all.skip(1),
            text_list(trustees@) == trustees_of(after.take(at - 1)),
    {
        let inner = split_text(entries[at].as_str(), ')');
        proof {
            crate::strings::lemma_split_nonempty(entries@[at as int]@, ')');
            assert(text_list(inner@)[0] == inner@[0]@);
            assert(after.take(at as int).drop_last() =~= after.take(at - 1));
            assert(after.take(at as int).last() == entries@[at as int]@);
        }
        let mut fields = split_text(inner[0].as_str(), ';');
        let ghost before = text_list(trustees@);
        let ghost split = text_list(fields@);
        if fields.len() >= 6 {
            assert(split[5] == fields@[5]@);
            trustees.push(fields.swap_remove(5));
            assert(text_list(trustees@) =~= before.push(split[5]));
        }
    }
    assert(after.take(entries@.len() - 1) =~= after);
    trustees
}

/// Trustees that may always get in: the system and the administrators.
pub open spec fn is_administrative(trustee: Seq<char>) -> bool {
    trustee == "SY"@ || trustee == "S-1-5-18"@ || trustee == "BA"@ || trustee == "S-1-5-32-544"@
}

/// Whether a trustee is the user or an administrative account. `aliases` are
/// other spellings that the host resolves to the user's own account: it renders
/// well-known accounts by two letters, and the user may be one of them.
pub open spec fn trustee_fits(
    trustee: Seq<char>,
    user: Seq<char>,
    aliases: Seq<Seq<char>>,
) -> bool {
    trustee == user || is_administrative(trustee) || lists_text(aliases, trustee)
}

pub fn trustee_is_self_or_admin(trustee: &str, user_sid: &str, aliases: &Vec<String>) -> (fits: bool)
    ensures
        fits == trustee_fits(trustee@, user_sid@, text_list(aliases@)),
{
    same_text(trustee, user_sid) || same_text(trustee, "SY") || same_text(trustee, "S-1-5-18")
        || same_text(trustee, "BA") || same_text(trustee, "S-1-5-32-544") || list_has(
        aliases,
        trustee,
    )
}

/// Whether a list keeps everyone out but the user and the administrators: it
/// inherits nothing, it is there at all, and every entry names one of them.
pub open spec fn keeps_others_out(
    sddl: Seq<char>,
    user: Seq<char>,
    aliases: Seq<Seq<char>>,
) -> bool {
    let body = sddl.skip(2);
    let trustees = body_trustees(body);
    &&& starts_with(sddl, "D:"@)
    &&& split_on(body, '(')[0].contains('P')
    &&& !occurs_in(body, "NO_ACCESS_CONTROL"@)
    &&& forall|i: int|
        0 <= i < trustees.len() ==> trustee_fits(#[trigger] trustees[i], user, aliases)
}

pub fn is_owner_only(sddl: &str, user_sid: &str, aliases: &Vec<String>) -> (only: bool)
    ensures
        only == keeps_others_out(sddl@, user_sid@, text_list(aliases@)),
{
    proof {
        reveal_strlit("D:");
    }
    let body = match strip_front(sddl, "D:") {
        Some(body) => body,
        None => {
            return false;
        },
    };
    assert(body@ == sddl@.skip(2));
    let pieces = split_text(body.as_str(), '(');
    proof {
        crate::strings::lemma_split_nonempty(body@, '(');
        assert(text_list(pieces@)[0] == pieces@[0]@);
    }
    if !has_char(pieces[0].as_str(), 'P') {
        return false;
    }
    if has_text(body.as_str(), "NO_ACCESS_CONTROL") {
        return false;
    }
    let trustees = aces(body.as_str());
    let ghost all = text_list(trustees@);
    for at in 0..trustees.len()
        invariant
            all == text_list(trustees@),
            all == body_trustees(sddl@.skip(2)),
            forall|i: int|
                0 <= i < at ==> trustee_fits(
                    #[trigger] all[i],
                    user_sid@,
                    text_list(aliases@),
                ),
    {
        if !trustee_is_self_or_admin(trustees[at].as_str(), user_sid, aliases) {
            assert(!trustee_fits(all[at as int], user_sid@, text_list(aliases@)));
            return false;
        }
        assert(all[at as int] == trustees@[at as int]@);
    }
    true
}

/// What a tightened directory looks like is recognised as private, for every
/// account identifier that holds nothing the notation itself is made of.
pub proof fn tightened_directories_are_private(user: Seq<char>, aliases: Seq<Seq<char>>)
    requires
        !user.contains('('),
        !user.contains(')'),
        !user.contains(';'),
        !occurs_in(user, "NO_ACCESS_CONTROL"@),
    ensures
        keeps_others_out(owner_only_text(user), user, aliases),
{
    reveal_strlit("D:");
    reveal_strlit("D:P(A;OICI;FA;;;");
    reveal_strlit(")(A;OICI;FA;;;SY)");
    reveal_strlit("NO_ACCESS_CONTROL");
    reveal_strlit("SY");
    let sddl = owner_only_text(user);
    let body = sddl.skip(2);
    let first = seq!['A', ';', 'O', 'I', 'C', 'I', ';', 'F', 'A', ';', ';', ';'] + user + seq![')'];
    let second = seq![
        'A',
        ';',
        'O',
        'I',
        'C',
        'I',
        ';',
        'F',
        'A',
        ';',
        ';',
        ';',
        'S',
        'Y',
        ')',
    ];
    let flags = seq!['P'];
    assert(sddl.subrange(0, 2) =~= "D:"@);
    assert(body =~= flags + seq!['('] + (first + seq!['('] + second));
    lemma_split_concat(flags, '(', first + seq!['('] + second);
    lemma_split_concat(first, '(', second);
    lemma_split_whole(flags, '(');
    assert(!first.contains('(')) by {
        if first.contains('(') {
            let i = choose|i: int| 0 <= i < first.len() && first[i] == '(';
            if 12 <= i < 12 + user.len() {
                assert(user[i - 12] == '(');
            }
        }
    }
    lemma_split_whole(first, '(');
    lemma_split_whole(second, '(');
    let pieces = split_on(body, '(');
    assert(pieces =~= seq![flags, first, second]);
    assert(flags[0] == 'P');
    assert(flags.contains('P'));
    assert(!occurs_in(body, "NO_ACCESS_CONTROL"@)) by {
        if occurs_in(body, "NO_ACCESS_CONTROL"@) {
            let at = choose|at: int| occurs_at(body, "NO_ACCESS_CONTROL"@, at);
            let mark = "NO_ACCESS_CONTROL"@;
            let window = body.subrange(at, at + mark.len());
            let after = 14 + user.len();
            assert(body[13] == ';' && body[after as int] == ')');
            if at <= 13 {
                assert(window[13 - at] == ';');
            } else if at <= after && after < at + mark.len() {
                assert(window[after - at] == ')');
            } else if at > after {
                assert(at + mark.len() > body.len());
            } else {
                assert(user.subrange(at - 14, at - 14 + mark.len()) =~= window);
                assert(occurs_at(user, mark, at - 14));
            }
        }
    }
    lemma_entry_trustee(user);
    assert(seq!['S', 'Y'] =~= "SY"@);
    assert(!seq!['S', 'Y'].contains(')') && !seq!['S', 'Y'].contains(';'));
    lemma_entry_trustee("SY"@);
    assert(second =~= seq!['A', ';', 'O', 'I', 'C', 'I', ';', 'F', 'A', ';', ';', ';'] + "SY"@
        + seq![')']);
    let entries = pieces.skip(1);
    assert(entries =~= seq![first, second]);
    assert(entries.drop_last() =~= seq![first]);
    assert(seq![first].drop_last() =~= Seq::<Seq<char>>::empty());
    assert(trustees_of(Seq::<Seq<char>>::empty()) =~= Seq::<Seq<char>>::empty());
    assert(trustees_of(seq![first]) =~= seq![user]);
    assert(trustees_of(entries) =~= seq![user, "SY"@]);
}

proof fn lemma_entry_trustee(trustee: Seq<char>)
    requires
        !trustee.contains(')'),
        !trustee.contains(';'),
    ensures
        entry_trustee(
            seq!['A', ';', 'O', 'I', 'C', 'I', ';', 'F', 'A', ';', ';', ';'] + trustee + seq![')'],
        ) == Some(trustee),
{
    let fields = seq!['A', ';', 'O', 'I', 'C', 'I', ';', 'F', 'A', ';', ';', ';'] + trustee;
    let entry = fields + seq![')'];
    assert(!fields.contains(')')) by {
        if fields.contains(')') {
            let i = choose|i: int| 0 <= i < fields.len() && fields[i] == ')';
            if i >= 12 {
                assert(trustee[i - 12] == ')');
            }
        }
    }
    lemma_split_concat(fields, ')', Seq::empty());
    assert(fields + seq![')'] + Seq::<char>::empty() =~= entry);
    lemma_split_whole(fields, ')');
    assert(split_on(entry, ')')[0] == fields);
    let a = seq!['A'];
    let b = seq!['O', 'I', 'C', 'I'];
    let c = seq!['F', 'A'];
    let e = Seq::<char>::empty();
    let r5 = trustee;
    let r4 = e + seq![';'] + r5;
    let r3 = e + seq![';'] + r4;
    let r2 = c + seq![';'] + r3;
    let r1 = b + seq![';'] + r2;
    assert(fields =~= a + seq![';'] + r1);
    lemma_split_concat(a, ';', r1);
    lemma_split_concat(b, ';', r2);
    lemma_split_concat(c, ';', r3);
    lemma_split_concat(e, ';', r4);
    lemma_split_concat(e, ';', r5);
    lemma_split_whole(a, ';');
    lemma_split_whole(b, ';');
    lemma_split_whole(c, ';');
    lemma_split_whole(e, ';');
    lemma_split_whole(trustee, ';');
    assert(split_on(fields, ';') =~= seq![a, b, c, e, e, trustee]);
}

/// The list that lets in the user and the system, in full and no one else, is accepted,
/// whichever way its entries are passed on.
pub proof fn lists_for_two_are_accepted(user: Seq<u8>, first: u8, second: u8, size: u16)
    requires
        first == 0 || first == 0x10 || first == 0x13,
        second == 0 || second == 0x10 || second == 0x13,
        size == 36 + user.len(),
    ensures
        is_user_system_policy(
            seq![2u8, 0u8, (size % 256) as u8, (size / 256) as u8, 2u8, 0u8, 0u8, 0u8] + seq![
                0u8,
                first,
                ((8 + user.len()) % 256) as u8,
                ((8 + user.len()) / 256) as u8,
                0xffu8,
                0x01u8,
                0x1fu8,
                0u8,
            ] + user + seq![
                0u8,
                second,
                20u8,
                0u8,
                0xffu8,
                0x01u8,
                0x1fu8,
                0u8,
                1u8,
                1u8,
                0u8,
                0u8,
                0u8,
                0u8,
                0u8,
                5u8,
                18u8,
                0u8,
                0u8,
                0u8,
            ],
            user,
        ),
{
    let head = seq![2u8, 0u8, (size % 256) as u8, (size / 256) as u8, 2u8, 0u8, 0u8, 0u8];
    let one = seq![
        0u8,
        first,
        ((8 + user.len()) % 256) as u8,
        ((8 + user.len()) / 256) as u8,
        0xffu8,
        0x01u8,
        0x1fu8,
        0u8,
    ];
    let two = seq![
        0u8,
        second,
        20u8,
        0u8,
        0xffu8,
        0x01u8,
        0x1fu8,
        0u8,
        1u8,
        1u8,
        0u8,
        0u8,
        0u8,
        0u8,
        0u8,
        5u8,
        18u8,
        0u8,
        0u8,
        0u8,
    ];
    let dacl = head + one + user + two;
    let next = 16 + user.len() as int;
    assert(dacl[0] == 2 && dacl[2] == (size % 256) as u8 && dacl[3] == (size / 256) as u8);
    assert(dacl[4] == 2 && dacl[5] == 0);
    assert(dacl[9] == first);
    assert(dacl[next + 1] == two[1]);
    assert(dacl.subrange(8, next) =~= full_control_entry(first, user));
    assert(two =~= full_control_entry(second, system_sid()));
    assert(dacl.subrange(next, next + 20) =~= two);
}

/// A list is refused where any of its entries denies, gives less or more than full control, or
/// is passed on in another way.
pub proof fn other_entries_are_refused(dacl: Seq<u8>, user: Seq<u8>)
    requires
        is_user_system_policy(dacl, user),
    ensures
        dacl.len() == 36 + user.len(),
        dacl[8] == 0 && dacl[16 + user.len() as int] == 0,
        dacl.subrange(12, 16) == seq![0xffu8, 0x01u8, 0x1fu8, 0u8],
        dacl.subrange(16, 16 + user.len() as int) == user,
        dacl.subrange(20 + user.len() as int, 24 + user.len() as int) == seq![
            0xffu8,
            0x01u8,
            0x1fu8,
            0u8,
        ],
        dacl.skip(24 + user.len() as int) == seq![
            1u8,
            1u8,
            0u8,
            0u8,
            0u8,
            0u8,
            0u8,
            5u8,
            18u8,
            0u8,
            0u8,
            0u8,
        ],
{
    let next = 16 + user.len() as int;
    let one = dacl.subrange(8, next);
    let two = dacl.subrange(next, dacl.len() as int);
    assert(one == full_control_entry(dacl[9], user));
    assert(two == full_control_entry(dacl[next + 1], system_sid()));
    assert(one[0] == dacl[8] && two[0] == dacl[next]);
    assert(dacl.subrange(12, 16) =~= one.subrange(4, 8));
    assert(dacl.subrange(16, next) =~= one.skip(8));
    assert(one.skip(8) =~= user);
    assert(dacl.subrange(next + 4, next + 8) =~= two.subrange(4, 8));
    assert(dacl.skip(next + 8) =~= two.skip(8));
    assert(two.skip(8) =~= system_sid());
}

proof fn lemma_shared_authorities(first: Seq<u8>, second: Seq<u8>, count: nat)
    requires
        first.len() >= 8 + 4 * count,
        second.len() >= 8 + 4 * count,
        forall|i: int| 8 <= i < 8 + 4 * count ==> #[trigger] first[i] == second[i],
    ensures
        sub_authorities(first, count) == sub_authorities(second, count),
    decreases count,
{
    if count > 0 {
        lemma_shared_authorities(first, second, (count - 1) as nat);
        let at = 4 + 4 * count as int;
        assert(first[at] == second[at] && first[at + 1] == second[at + 1] && first[at + 2]
            == second[at + 2] && first[at + 3] == second[at + 3]);
    }
}

/// An identifier is spelled by its revision, its authority and its sub-authorities in turn: one
/// more of those adds its number to the text.
pub proof fn identifiers_are_spelled_in_turn(
    revision: u8,
    count: u8,
    authority: u8,
    subs: Seq<u8>,
    last: Seq<u8>,
)
    requires
        count < 255,
        subs.len() == 4 * count,
        last.len() == 4,
    ensures
        ({
            let front = seq![0u8, 0u8, 0u8, 0u8, 0u8, authority];
            let shorter = seq![revision, count] + front + subs;
            let longer = seq![revision, (count + 1) as u8] + front + subs + last;
            &&& sid_text(longer) == sid_text(shorter) + "-"@ + decimal(
                (last[0] + 256 * last[1] + 65536 * last[2] + 16777216 * last[3]) as nat,
            )
            &&& count == 0 ==> sid_text(shorter) == "S-"@ + decimal(revision as nat) + "-"@
                + decimal(authority as nat)
        }),
{
    let front = seq![0u8, 0u8, 0u8, 0u8, 0u8, authority];
    let shorter = seq![revision, count] + front + subs;
    let longer = seq![revision, (count + 1) as u8] + front + subs + last;
    assert(shorter.subrange(2, 8) =~= front);
    assert(longer.subrange(2, 8) =~= front);
    assert(be_number(front) == authority) by {
        reveal_with_fuel(be_number, 7);
        assert(front.drop_last() =~= seq![0u8, 0u8, 0u8, 0u8, 0u8]);
        assert(front.drop_last().drop_last() =~= seq![0u8, 0u8, 0u8, 0u8]);
        assert(front.drop_last().drop_last().drop_last() =~= seq![0u8, 0u8, 0u8]);
        assert(front.drop_last().drop_last().drop_last().drop_last() =~= seq![0u8, 0u8]);
        assert(front.drop_last().drop_last().drop_last().drop_last().drop_last() =~= seq![0u8]);
    }
    lemma_shared_authorities(shorter, longer, count as nat);
    let at = 8 + 4 * count as int;
    assert(longer[at] == last[0] && longer[at + 1] == last[1] && longer[at + 2] == last[2]
        && longer[at + 3] == last[3]);
    assert(sub_authorities(longer, (count + 1) as nat) == sub_authorities(shorter, count as nat)
        + "-"@ + decimal(le32(longer, at)));
    assert(sid_text(longer) =~= sid_text(shorter) + "-"@ + decimal(le32(longer, at)));
    if count == 0 {
        assert(sid_text(shorter) =~= "S-"@ + decimal(revision as nat) + "-"@ + decimal(
            authority as nat,
        ));
    }
}

proof fn lemma_trustee_is_listed(entries: Seq<Seq<char>>, at: int)
    requires
        0 <= at < entries.len(),
        entry_trustee(entries[at]) is Some,
    ensures
        trustees_of(entries).contains(entry_trustee(entries[at])->Some_0),
    decreases entries.len(),
{
    let before = trustees_of(entries.drop_last());
    if at == entries.len() - 1 {
        let trustee = entry_trustee(entries.last())->Some_0;
        assert(before.push(trustee)[before.len() as int] == trustee);
    } else {
        lemma_trustee_is_listed(entries.drop_last(), at);
        let trustee = entry_trustee(entries[at])->Some_0;
        let i = choose|i: int| 0 <= i < before.len() && before[i] == trustee;
        if let Some(last) = entry_trustee(entries.last()) {
            assert(before.push(last)[i] == trustee);
        }
    }
}

proof fn lemma_trustee_of_entry(fields: Seq<Seq<char>>, entry: Seq<char>)
    requires
        fields.len() == 6,
        entry == fields[0] + seq![';'] + fields[1] + seq![';'] + fields[2] + seq![';'] + fields[3]
            + seq![';'] + fields[4] + seq![';'] + fields[5],
        forall|i: int|
            0 <= i < 6 ==> !(#[trigger] fields[i]).contains(';') && !fields[i].contains(')')
                && !fields[i].contains('('),
    ensures
        entry_trustee(entry + seq![')']) == Some(fields[5]),
        !(entry + seq![')']).contains('('),
{
    let e1 = fields[0] + seq![';'] + fields[1];
    let e2 = e1 + seq![';'] + fields[2];
    let e3 = e2 + seq![';'] + fields[3];
    let e4 = e3 + seq![';'] + fields[4];
    let e5 = e4 + seq![';'] + fields[5];
    assert(entry =~= e5);
    lemma_split_concat(fields[0], ';', fields[1]);
    lemma_split_concat(e1, ';', fields[2]);
    lemma_split_concat(e2, ';', fields[3]);
    lemma_split_concat(e3, ';', fields[4]);
    lemma_split_concat(e4, ';', fields[5]);
    lemma_split_whole(fields[0], ';');
    lemma_split_whole(fields[1], ';');
    lemma_split_whole(fields[2], ';');
    lemma_split_whole(fields[3], ';');
    lemma_split_whole(fields[4], ';');
    lemma_split_whole(fields[5], ';');
    assert(split_on(entry, ';') =~= fields);
    let closed = entry + seq![')'];
    lemma_no_mark(fields, entry, ')');
    lemma_no_mark(fields, entry, '(');
    lemma_split_whole(entry, ')');
    lemma_split_concat(entry, ')', Seq::empty());
    assert(entry + seq![')'] + Seq::empty() =~= closed);
    assert(split_on(closed, ')')[0] == entry);
    if closed.contains('(') {
        let i = choose|i: int| 0 <= i < closed.len() && closed[i] == '(';
        assert(i < entry.len());
        assert(entry[i] == '(');
    }
}

proof fn lemma_no_mark(fields: Seq<Seq<char>>, entry: Seq<char>, mark: char)
    requires
        fields.len() == 6,
        mark != ';',
        entry == fields[0] + seq![';'] + fields[1] + seq![';'] + fields[2] + seq![';'] + fields[3]
            + seq![';'] + fields[4] + seq![';'] + fields[5],
        forall|i: int| 0 <= i < 6 ==> !(#[trigger] fields[i]).contains(mark),
    ensures
        !entry.contains(mark),
{
    let e1 = fields[0] + seq![';'] + fields[1];
    let e2 = e1 + seq![';'] + fields[2];
    let e3 = e2 + seq![';'] + fields[3];
    let e4 = e3 + seq![';'] + fields[4];
    lemma_no_mark_between(fields[0], fields[1], mark);
    lemma_no_mark_between(e1, fields[2], mark);
    lemma_no_mark_between(e2, fields[3], mark);
    lemma_no_mark_between(e3, fields[4], mark);
    lemma_no_mark_between(e4, fields[5], mark);
    assert(entry =~= e4 + seq![';'] + fields[5]);
}

proof fn lemma_no_mark_between(first: Seq<char>, second: Seq<char>, mark: char)
    requires
        mark != ';',
        !first.contains(mark),
        !second.contains(mark),
    ensures
        !(first + seq![';'] + second).contains(mark),
{
    let all = first + seq![';'] + second;
    if all.contains(mark) {
        let i = choose|i: int| 0 <= i < all.len() && all[i] == mark;
        if i < first.len() {
            assert(first[i] == mark);
        } else {
            assert(i > first.len());
            assert(second[i - first.len() - 1] == mark);
        }
    }
}

/// Wherever it stands in a list, an entry that lets in someone other than the user, the system
/// and the administrators is noticed.
pub proof fn outsiders_are_noticed(
    front: Seq<char>,
    fields: Seq<Seq<char>>,
    back: Seq<char>,
    user: Seq<char>,
    aliases: Seq<Seq<char>>,
)
    requires
        fields.len() == 6,
        forall|i: int|
            0 <= i < 6 ==> !(#[trigger] fields[i]).contains(';') && !fields[i].contains(')')
                && !fields[i].contains('('),
        fields[5] != user,
        fields[5] != "SY"@,
        fields[5] != "BA"@,
        fields[5] != "S-1-5-18"@,
        fields[5] != "S-1-5-32-544"@,
        !aliases.contains(fields[5]),
    ensures
        ({
            let entry = fields[0] + seq![';'] + fields[1] + seq![';'] + fields[2] + seq![';']
                + fields[3] + seq![';'] + fields[4] + seq![';'] + fields[5] + seq![')'];
            &&& !keeps_others_out("D:"@ + front + seq!['('] + entry, user, aliases)
            &&& !keeps_others_out(
                "D:"@ + front + seq!['('] + entry + seq!['('] + back,
                user,
                aliases,
            )
        }),
{
    let entry = fields[0] + seq![';'] + fields[1] + seq![';'] + fields[2] + seq![';'] + fields[3]
        + seq![';'] + fields[4] + seq![';'] + fields[5];
    let closed = entry + seq![')'];
    lemma_trustee_of_entry(fields, entry);
    lemma_split_whole(closed, '(');
    lemma_split_nonempty(front, '(');
    reveal_strlit("D:");
    let short = "D:"@ + front + seq!['('] + closed;
    let long = "D:"@ + front + seq!['('] + closed + seq!['('] + back;
    assert(short.skip(2) =~= front + seq!['('] + closed);
    assert(long.skip(2) =~= front + seq!['('] + closed + seq!['('] + back);
    lemma_split_concat(front, '(', closed);
    lemma_split_concat(front + seq!['('] + closed, '(', back);
    let at = split_on(front, '(').len() - 1;
    assert(!trustee_fits(fields[5], user, aliases)) by {
        if lists_text(aliases, fields[5]) {
            assert(aliases.contains(fields[5]));
        }
    }
    let few = split_on(short.skip(2), '(').skip(1);
    assert(few[at] == closed);
    lemma_trustee_is_listed(few, at);
    let i = choose|i: int| 0 <= i < trustees_of(few).len() && trustees_of(few)[i] == fields[5];
    assert(!trustee_fits(trustees_of(few)[i], user, aliases));
    assert(body_trustees(short.skip(2)) == trustees_of(few));
    assert(!keeps_others_out(short, user, aliases));
    let many = split_on(long.skip(2), '(').skip(1);
    assert(many[at] == closed);
    lemma_trustee_is_listed(many, at);
    let j = choose|j: int| 0 <= j < trustees_of(many).len() && trustees_of(many)[j] == fields[5];
    assert(!trustee_fits(trustees_of(many)[j], user, aliases));
    assert(body_trustees(long.skip(2)) == trustees_of(many));
    assert(!keeps_others_out(long, user, aliases));
}

/// A list that takes over what its directory hands down keeps no one out, nor does what is no
/// list at all.
pub proof fn unprotected_lists_are_noticed(
    flags: Seq<char>,
    rest: Seq<char>,
    user: Seq<char>,
    aliases: Seq<Seq<char>>,
)
    requires
        !flags.contains('('),
        !flags.contains('P'),
    ensures
        !keeps_others_out("D:"@ + flags, user, aliases),
        !keeps_others_out("D:"@ + flags + seq!['('] + rest, user, aliases),
        rest.len() < 2 || rest[0] != 'D' || rest[1] != ':' ==> !keeps_others_out(
            rest,
            user,
            aliases,
        ),
{
    reveal_strlit("D:");
    lemma_split_whole(flags, '(');
    lemma_split_concat(flags, '(', rest);
    assert(("D:"@ + flags).skip(2) =~= flags);
    assert(("D:"@ + flags + seq!['('] + rest).skip(2) =~= flags + seq!['('] + rest);
    if starts_with(rest, "D:"@) {
        assert(rest.subrange(0, 2)[0] == 'D' && rest.subrange(0, 2)[1] == ':');
    }
}

/// An identifier is spelled where its length is what its count asks for, and what is written for
/// a directory and for a file names the same user, and the system, and no one else.
pub proof fn written_lists_name_the_user(
    sid: &[u8],
    text: Result<String, HostError>,
    directory: Result<String, HostError>,
    file: Result<String, HostError>,
)
    requires
        call_ensures(sid_sddl, (sid,), text),
        call_ensures(private_dir_sddl, (sid,), directory),
        call_ensures(private_file_sddl, (sid,), file),
    ensures
        text is Ok <==> sid@.len() >= 8 && sid@.len() == 8 + 4 * sid@[1],
        text is Ok == directory is Ok,
        text is Ok == file is Ok,
        text is Ok ==> directory->Ok_0@ == "D:P(A;OICI;FA;;;"@ + text->Ok_0@
            + ")(A;OICI;FA;;;SY)"@,
        text is Ok ==> file->Ok_0@ == "D:P(A;;FA;;;"@ + text->Ok_0@ + ")(A;;FA;;;SY)"@,
{
}

} // verus!
