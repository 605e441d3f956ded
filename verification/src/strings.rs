//! Text as sequences of characters.
use vstd::prelude::*;
use vstd::string::StringExecFns;
use vstd::utf8::{decode_utf8, encode_scalar, encode_utf8, valid_utf8};

verus! {

/// `String::push`: appends one character.
#[verifier::external_body]
pub(crate) fn push_char(text: &mut String, c: char)
    ensures
        final(text)@ == old(text)@.push(c),
{
    text.push(c)
}

/// The characters of a text.
pub fn chars_of(text: &str) -> (chars: Vec<char>)
    ensures
        chars@ == text@,
{
    let mut chars: Vec<char> = Vec::new();
    for c in iter: text.chars()
        invariant
            chars@ == iter.seq().take(iter.index() as int),
            iter.seq() == text@,
    {
        chars.push(c);
        assert(iter.seq().take(iter.index() as int).push(c) =~= iter.seq().take(
            iter.index() + 1,
        ));
    }
    assert(text@.take(text@.len() as int) =~= text@);
    chars
}

/// The text that `chars[from..to]` spells.
pub fn text_between(chars: &Vec<char>, from: usize, to: usize) -> (text: String)
    requires
        from <= to <= chars@.len(),
    ensures
        text@ == chars@.subrange(from as int, to as int),
{
    let mut text = String::new();
    let mut at: usize = from;
    assert(text@ =~= chars@.subrange(from as int, from as int));
    while at < to
        invariant
            from <= at <= to <= chars@.len(),
            text@ == chars@.subrange(from as int, at as int),
        decreases to - at,
    {
        push_char(&mut text, chars[at]);
        assert(chars@.subrange(from as int, at as int).push(chars@[at as int]) =~= chars@.subrange(
            from as int,
            at + 1,
        ));
        at += 1;
    }
    text
}

/// Two texts, one after the other.
pub fn join2(first: &str, second: &str) -> (text: String)
    ensures
        text@ == first@ + second@,
{
    let mut text = String::from_str(first);
    text.append(second);
    text
}

/// Three texts, one after the other.
pub fn join3(first: &str, second: &str, third: &str) -> (text: String)
    ensures
        text@ == first@ + second@ + third@,
{
    let mut text = String::from_str(first);
    text.append(second);
    text.append(third);
    text
}

/// Whether two texts are the same.
pub fn same_text(first: &str, second: &str) -> (same: bool)
    ensures
        same == (first@ == second@),
{
    first.to_owned() == second.to_owned()
}

/// A copy of an optional text.
pub fn copy_optional(text: &Option<String>) -> (copy: Option<String>)
    ensures
        match (*text, copy) {
            (Some(text), Some(copy)) => text@ == copy@,
            (None, None) => true,
            _ => false,
        },
{
    match text {
        Some(text) => Some(text.clone()),
        None => None,
    }
}

/// Whether a character is an ASCII upper-case letter.
pub open spec fn is_upper(c: char) -> bool {
    'A' <= c && c <= 'Z'
}

/// A character with ASCII letters in lower case.
pub open spec fn lower(c: char) -> char {
    if is_upper(c) { ((c as u8 + 32) as u8) as char } else { c }
}

/// A text with ASCII letters in lower case.
pub open spec fn lowered(text: Seq<char>) -> Seq<char> {
    text.map_values(|c: char| lower(c))
}

pub fn lower_char(c: char) -> (folded: char)
    ensures
        folded == lower(c),
{
    if 'A' <= c && c <= 'Z' {
        (c as u8 + 32) as char
    } else {
        c
    }
}

/// `str::to_ascii_lowercase`.
pub fn lower_text(text: &str) -> (folded: String)
    ensures
        folded@ == lowered(text@),
{
    let chars = chars_of(text);
    let mut folded = String::new();
    assert(folded@ =~= lowered(text@).take(0));
    for at in 0..chars.len()
        invariant
            chars@ == text@,
            folded@ == lowered(text@).take(at as int),
    {
        push_char(&mut folded, lower_char(chars[at]));
        assert(lowered(text@).take(at as int).push(lower(text@[at as int])) =~= lowered(
            text@,
        ).take(at + 1));
    }
    assert(lowered(text@).take(text@.len() as int) =~= lowered(text@));
    folded
}

/// Whether two texts are the same but for the case of ASCII letters.
pub fn same_ignoring_case(first: &str, second: &str) -> (same: bool)
    ensures
        same == (lowered(first@) == lowered(second@)),
{
    lower_text(first) == lower_text(second)
}

/// Whether `text` holds `c`.
pub fn has_char(text: &str, c: char) -> (has: bool)
    ensures
        has == text@.contains(c),
{
    let chars = chars_of(text);
    for at in 0..chars.len()
        invariant
            chars@ == text@,
            forall|i: int| 0 <= i < at ==> text@[i] != c,
    {
        if chars[at] == c {
            return true;
        }
    }
    false
}

// ---------------------------------------------------------------------------
// Numbers
// ---------------------------------------------------------------------------

/// A decimal digit.
pub open spec fn digit(value: nat) -> char {
    ((value % 10 + 48) as u8) as char
}

/// A number in decimal, without leading zeros.
pub open spec fn decimal(value: nat) -> Seq<char>
    decreases value,
{
    if value < 10 {
        seq![digit(value)]
    } else {
        decimal(value / 10).push(digit(value))
    }
}

/// A number in decimal.
pub fn decimal_text(value: u64) -> (text: String)
    ensures
        text@ == decimal(value as nat),
    decreases value,
{
    let mut text = if value < 10 { String::new() } else { decimal_text(value / 10) };
    push_char(&mut text, ((value % 10) as u8 + 48) as char);
    if value < 10 {
        assert(text@ =~= decimal(value as nat));
    }
    text
}

/// Different numbers are written differently.
pub proof fn lemma_decimal_injective(first: nat, second: nat)
    requires
        decimal(first) == decimal(second),
    ensures
        first == second,
    decreases first,
{
    lemma_digit_injective(first, second);
    if first < 10 {
        assert(decimal(first).len() == 1);
        if second >= 10 {
            lemma_decimal_nonempty(second / 10);
            assert(decimal(second).len() > 1);
        }
    } else if second < 10 {
        lemma_decimal_nonempty(first / 10);
        assert(decimal(first).len() > 1);
    } else {
        assert(decimal(first).drop_last() =~= decimal(first / 10));
        assert(decimal(second).drop_last() =~= decimal(second / 10));
        lemma_decimal_injective(first / 10, second / 10);
    }
}

proof fn lemma_decimal_nonempty(value: nat)
    ensures
        decimal(value).len() > 0,
{
}

proof fn lemma_digit_injective(first: nat, second: nat)
    requires
        decimal(first) == decimal(second),
    ensures
        first % 10 == second % 10,
{
    assert(decimal(first).last() == digit(first));
    assert(decimal(second).last() == digit(second));
    assert((digit(first) as u32) == first % 10 + 48);
    assert((digit(second) as u32) == second % 10 + 48);
}

/// A signed number in decimal.
pub open spec fn signed_decimal(value: int) -> Seq<char> {
    if value < 0 { seq!['-'] + decimal((-value) as nat) } else { decimal(value as nat) }
}

pub fn signed_decimal_text(value: i64) -> (text: String)
    ensures
        text@ == signed_decimal(value as int),
{
    if value < 0 {
        let magnitude: u64 = if value == i64::MIN {
            0x8000_0000_0000_0000
        } else {
            (-value) as u64
        };
        let mut text = String::new();
        push_char(&mut text, '-');
        assert(text@ =~= seq!['-']);
        let digits = decimal_text(magnitude);
        text.append(digits.as_str());
        text
    } else {
        decimal_text(value as u64)
    }
}

/// A code that a program may have ended with, as diagnostics show it.
pub open spec fn optional_code(code: Option<i32>) -> Seq<char> {
    match code {
        Some(code) => "Some("@ + signed_decimal(code as int) + ")"@,
        None => "None"@,
    }
}

pub fn optional_code_text(code: Option<i32>) -> (text: String)
    ensures
        text@ == optional_code(code),
{
    match code {
        Some(code) => join3("Some(", signed_decimal_text(code as i64).as_str(), ")"),
        None => "None".to_owned(),
    }
}

/// A text in quotes, as diagnostics show it: what std writes for `{:?}`.
pub uninterp spec fn debug_text(text: Seq<char>) -> Seq<char>;

/// `<str as core::fmt::Debug>::fmt`: the text in quotes, with what cannot be shown
/// written as escapes.
#[verifier::external_body]
pub(crate) fn quoted_text(text: &str) -> (quoted: String)
    ensures
        quoted@ == debug_text(text@),
{
    format!("{text:?}")
}

/// A number in hexadecimal, without leading zeros.
pub open spec fn hex_number(value: nat) -> Seq<char>
    decreases value,
{
    if value < 16 {
        seq![hex_digit(value as int)]
    } else {
        hex_number(value / 16).push(hex_digit((value % 16) as int))
    }
}

pub fn hex_number_text(value: u64) -> (text: String)
    ensures
        text@ == hex_number(value as nat),
    decreases value,
{
    let mut text = if value < 16 { String::new() } else { hex_number_text(value / 16) };
    push_char(&mut text, hex_char((value % 16) as u8));
    if value < 16 {
        assert(text@ =~= hex_number(value as nat));
    }
    text
}

/// A lower-case hexadecimal digit.
pub open spec fn hex_digit(value: int) -> char {
    if value < 10 { ((value + 48) as u8) as char } else { ((value + 87) as u8) as char }
}

/// Bytes as pairs of lower-case hexadecimal digits, high digit first.
pub open spec fn hex_of(bytes: Seq<u8>) -> Seq<char> {
    Seq::new(
        bytes.len() * 2,
        |i: int|
            if i % 2 == 0 {
                hex_digit(bytes[i / 2] as int / 16)
            } else {
                hex_digit(bytes[i / 2] as int % 16)
            },
    )
}

/// Different bytes are written differently.
pub proof fn lemma_hex_injective(first: Seq<u8>, second: Seq<u8>)
    requires
        hex_of(first) == hex_of(second),
    ensures
        first == second,
{
    assert(hex_of(first).len() == first.len() * 2 && hex_of(second).len() == second.len() * 2);
    assert(first.len() == second.len());
    assert forall|i: int| 0 <= i < first.len() implies first[i] == second[i] by {
        let high = 2 * i;
        let low = 2 * i + 1;
        assert(high % 2 == 0 && high / 2 == i && low % 2 == 1 && low / 2 == i);
        assert(hex_of(first)[high] == hex_digit(first[i] as int / 16));
        assert(hex_of(second)[high] == hex_digit(second[i] as int / 16));
        assert(hex_of(first)[low] == hex_digit(first[i] as int % 16));
        assert(hex_of(second)[low] == hex_digit(second[i] as int % 16));
        lemma_hex_digit_injective(first[i] as int / 16, second[i] as int / 16);
        lemma_hex_digit_injective(first[i] as int % 16, second[i] as int % 16);
    }
    assert(first =~= second);
}

proof fn lemma_hex_digit_injective(first: int, second: int)
    requires
        0 <= first < 16,
        0 <= second < 16,
        hex_digit(first) == hex_digit(second),
    ensures
        first == second,
{
    assert(hex_digit(first) as u32 == if first < 10 { first + 48 } else { first + 87 });
    assert(hex_digit(second) as u32 == if second < 10 { second + 48 } else { second + 87 });
}

fn hex_char(value: u8) -> (c: char)
    requires
        value < 16,
    ensures
        c == hex_digit(value as int),
{
    if value < 10 {
        (value + 48) as char
    } else {
        (value + 87) as char
    }
}

/// Bytes in hexadecimal.
pub fn hex(bytes: &[u8]) -> (text: String)
    ensures
        text@ == hex_of(bytes@),
{
    let mut text = String::new();
    assert(text@ =~= hex_of(bytes@).take(0));
    for at in 0..bytes.len()
        invariant
            text@ == hex_of(bytes@).take(2 * at as int),
    {
        push_char(&mut text, hex_char(bytes[at] / 16));
        push_char(&mut text, hex_char(bytes[at] % 16));
        assert(text@ =~= hex_of(bytes@).take(2 * (at + 1)));
    }
    assert(hex_of(bytes@).take(2 * bytes@.len() as int) =~= hex_of(bytes@));
    text
}

// ---------------------------------------------------------------------------
// Trimming and truncation
// ---------------------------------------------------------------------------

/// Whether a character counts as white space in Unicode.
pub open spec fn is_white(c: char) -> bool {
    let v = c as u32;
    ||| 0x9 <= v <= 0xd
    ||| v == 0x20
    ||| v == 0x85
    ||| v == 0xa0
    ||| v == 0x1680
    ||| 0x2000 <= v <= 0x200a
    ||| v == 0x2028
    ||| v == 0x2029
    ||| v == 0x202f
    ||| v == 0x205f
    ||| v == 0x3000
}

pub fn white(c: char) -> (is: bool)
    ensures
        is == is_white(c),
{
    let v: u32 = c as u32;
    (0x9 <= v && v <= 0xd) || v == 0x20 || v == 0x85 || v == 0xa0 || v == 0x1680 || (0x2000 <= v
        && v <= 0x200a) || v == 0x2028 || v == 0x2029 || v == 0x202f || v == 0x205f || v == 0x3000
}

/// A text without the white space at its back.
pub open spec fn trimmed_back(text: Seq<char>) -> Seq<char>
    decreases text.len(),
{
    if text.len() == 0 || !is_white(text.last()) { text } else { trimmed_back(text.drop_last()) }
}

/// A text without the white space at its front.
pub open spec fn trimmed_front(text: Seq<char>) -> Seq<char>
    decreases text.len(),
{
    if text.len() == 0 || !is_white(text[0]) { text } else { trimmed_front(text.drop_first()) }
}

/// A text without the white space around it.
pub open spec fn trimmed(text: Seq<char>) -> Seq<char> {
    trimmed_back(trimmed_front(text))
}

/// `str::trim`.
pub fn trim_text(text: &str) -> (trim: String)
    ensures
        trim@ == trimmed(text@),
{
    let chars = chars_of(text);
    let mut from: usize = 0;
    assert(text@.skip(0) =~= text@);
    while from < chars.len() && white(chars[from])
        invariant
            chars@ == text@,
            from <= chars@.len(),
            trimmed_front(text@) == trimmed_front(text@.skip(from as int)),
        decreases chars@.len() - from,
    {
        assert(text@.skip(from as int).drop_first() =~= text@.skip(from + 1));
        from += 1;
    }
    let ghost front = text@.skip(from as int);
    assert(trimmed_front(text@) == front);
    let mut to: usize = chars.len();
    assert(text@.subrange(from as int, to as int) =~= front);
    while to > from && white(chars[to - 1])
        invariant
            chars@ == text@,
            from <= to <= chars@.len(),
            trimmed_back(front) == trimmed_back(text@.subrange(from as int, to as int)),
        decreases to,
    {
        assert(text@.subrange(from as int, to as int).drop_last() =~= text@.subrange(
            from as int,
            to - 1,
        ));
        to -= 1;
    }
    text_between(&chars, from, to)
}

/// How many bytes a text takes in UTF-8.
pub open spec fn utf8_len(text: Seq<char>) -> nat {
    encode_utf8(text).len()
}

/// The longest run of whole characters at the front of a text that takes no
/// more than `limit` bytes.
pub open spec fn utf8_prefix(text: Seq<char>, limit: nat) -> Seq<char>
    decreases text.len(),
{
    if utf8_len(text) <= limit || text.len() == 0 {
        text
    } else {
        utf8_prefix(text.drop_last(), limit)
    }
}

/// What is kept of a text stays within the limit.
pub proof fn kept_text_fits(text: Seq<char>, limit: nat)
    ensures
        utf8_len(utf8_prefix(text, limit)) <= limit,
    decreases text.len(),
{
    if text.len() == 0 {
        assert(text =~= Seq::<char>::empty());
        assert(encode_utf8(Seq::<char>::empty()).len() == 0);
    } else if utf8_len(text) > limit {
        kept_text_fits(text.drop_last(), limit);
    }
}

proof fn lemma_utf8_len_push(text: Seq<char>, c: char)
    ensures
        utf8_len(text.push(c)) == utf8_len(text) + encode_scalar(c as u32).len(),
    decreases text.len(),
{
    if text.len() == 0 {
        assert(text.push(c).drop_first() =~= Seq::<char>::empty());
        assert(text =~= Seq::<char>::empty());
        assert(encode_utf8(Seq::<char>::empty()).len() == 0);
    } else {
        assert(text.push(c).drop_first() =~= text.drop_first().push(c));
        lemma_utf8_len_push(text.drop_first(), c);
    }
}

/// How many bytes a character takes in UTF-8.
pub fn char_width(c: char) -> (width: usize)
    ensures
        width == encode_scalar(c as u32).len(),
        1 <= width <= 4,
{
    let v: u32 = c as u32;
    if v <= 0x7f {
        1
    } else if v <= 0x7ff {
        2
    } else if v <= 0xffff {
        3
    } else {
        4
    }
}

proof fn lemma_utf8_prefix_is(text: Seq<char>, keep: nat, limit: nat)
    requires
        keep <= text.len(),
        utf8_len(text.take(keep as int)) <= limit,
        keep < text.len() ==> utf8_len(text.take((keep + 1) as int)) > limit,
    ensures
        utf8_prefix(text, limit) == text.take(keep as int),
    decreases text.len(),
{
    if keep == text.len() {
        assert(text.take(keep as int) =~= text);
    } else {
        lemma_utf8_len_grows(text, keep + 1);
        let less = text.drop_last();
        assert(less.take(keep as int) =~= text.take(keep as int));
        if keep < less.len() {
            assert(less.take((keep + 1) as int) =~= text.take((keep + 1) as int));
        }
        lemma_utf8_prefix_is(less, keep, limit);
    }
}

proof fn lemma_utf8_len_grows(text: Seq<char>, keep: nat)
    requires
        keep <= text.len(),
    ensures
        utf8_len(text.take(keep as int)) <= utf8_len(text),
    decreases text.len() - keep,
{
    if keep == text.len() {
        assert(text.take(keep as int) =~= text);
    } else {
        assert(text.take((keep + 1) as int) =~= text.take(keep as int).push(text[keep as int]));
        lemma_utf8_len_push(text.take(keep as int), text[keep as int]);
        lemma_utf8_len_grows(text, keep + 1);
    }
}

/// The front of a text, cut at a character boundary.
pub fn truncate_text(text: &str, limit: usize) -> (front: String)
    ensures
        front@ == utf8_prefix(text@, limit as nat),
{
    let chars = chars_of(text);
    let mut keep: usize = 0;
    let mut used: usize = 0;
    assert(text@.take(0) =~= Seq::<char>::empty());
    while keep < chars.len() && char_width(chars[keep]) <= limit - used
        invariant
            chars@ == text@,
            keep <= chars@.len(),
            used <= limit,
            used == utf8_len(text@.take(keep as int)),
        decreases chars@.len() - keep,
    {
        proof {
            lemma_utf8_len_push(text@.take(keep as int), text@[keep as int]);
            assert(text@.take(keep + 1) =~= text@.take(keep as int).push(text@[keep as int]));
        }
        used += char_width(chars[keep]);
        keep += 1;
    }
    proof {
        if keep < chars@.len() {
            lemma_utf8_len_push(text@.take(keep as int), text@[keep as int]);
            assert(text@.take(keep + 1) =~= text@.take(keep as int).push(text@[keep as int]));
        }
        lemma_utf8_prefix_is(text@, keep as nat, limit as nat);
        assert(text@.subrange(0, keep as int) =~= text@.take(keep as int));
    }
    text_between(&chars, 0, keep)
}

/// What bytes spell when every malformed run is replaced by U+FFFD.
pub uninterp spec fn utf8_lossy(bytes: Seq<u8>) -> Seq<char>;

/// `String::from_utf8_lossy`: well-formed UTF-8 is decoded as it stands, and
/// malformed runs are replaced.
#[verifier::external_body]
pub(crate) fn lossy_text(bytes: &[u8]) -> (text: String)
    ensures
        text@ == utf8_lossy(bytes@),
        valid_utf8(bytes@) ==> text@ == decode_utf8(bytes@),
{
    String::from_utf8_lossy(bytes).into_owned()
}

/// What `std` says is wrong with bytes that are not UTF-8.
pub uninterp spec fn utf8_fault(bytes: Seq<u8>) -> Seq<char>;

/// `String::from_utf8`: the text that the bytes encode, or what is wrong with
/// them.
#[verifier::external_body]
pub(crate) fn text_from_utf8(bytes: Vec<u8>) -> (text: Result<String, String>)
    ensures
        match text {
            Ok(text) => valid_utf8(bytes@) && text@ == decode_utf8(bytes@),
            Err(fault) => !valid_utf8(bytes@) && fault@ == utf8_fault(bytes@),
        },
{
    match String::from_utf8(bytes) {
        Ok(text) => Ok(text),
        Err(error) => Err(error.to_string()),
    }
}

// ---------------------------------------------------------------------------
// Splitting and searching
// ---------------------------------------------------------------------------

/// The pieces of a text between the occurrences of a character.
pub open spec fn split_on(text: Seq<char>, at: char) -> Seq<Seq<char>>
    decreases text.len(),
{
    if text.len() == 0 {
        seq![Seq::empty()]
    } else {
        let before = split_on(text.drop_last(), at);
        if text.last() == at {
            before.push(Seq::empty())
        } else {
            before.drop_last().push(before.last().push(text.last()))
        }
    }
}

pub proof fn lemma_split_nonempty(text: Seq<char>, at: char)
    ensures
        split_on(text, at).len() >= 1,
    decreases text.len(),
{
    if text.len() > 0 {
        lemma_split_nonempty(text.drop_last(), at);
    }
}

/// A text without the character is one piece.
pub proof fn lemma_split_whole(text: Seq<char>, at: char)
    requires
        !text.contains(at),
    ensures
        split_on(text, at) == seq![text],
    decreases text.len(),
{
    if text.len() == 0 {
        assert(text =~= Seq::<char>::empty());
    } else {
        let less = text.drop_last();
        assert(!less.contains(at)) by {
            if less.contains(at) {
                let i = choose|i: int| 0 <= i < less.len() && less[i] == at;
                assert(text[i] == at);
            }
        }
        lemma_split_whole(less, at);
        assert(text.last() != at) by {
            assert(text[text.len() - 1] == text.last());
        }
        assert(less.push(text.last()) =~= text);
        assert(split_on(text, at) =~= seq![text]);
    }
}

/// Splitting goes piece by piece.
pub proof fn lemma_split_concat(first: Seq<char>, at: char, second: Seq<char>)
    ensures
        split_on(first + seq![at] + second, at) == split_on(first, at) + split_on(second, at),
    decreases second.len(),
{
    let text = first + seq![at] + second;
    if second.len() == 0 {
        assert(text.drop_last() =~= first);
        assert(text.last() == at);
        assert(split_on(text, at) =~= split_on(first, at) + split_on(second, at));
    } else {
        assert(text.drop_last() =~= first + seq![at] + second.drop_last());
        assert(text.last() == second.last());
        lemma_split_concat(first, at, second.drop_last());
        lemma_split_nonempty(second.drop_last(), at);
        let a = split_on(first, at);
        let b = split_on(second.drop_last(), at);
        assert((a + b).drop_last() =~= a + b.drop_last());
        assert((a + b).last() == b.last());
        assert(split_on(text, at) =~= a + split_on(second, at));
    }
}

pub open spec fn text_list(list: Seq<String>) -> Seq<Seq<char>> {
    list.map_values(|text: String| text@)
}

/// The pieces of a text between the occurrences of a character.
pub fn split_text(text: &str, at: char) -> (pieces: Vec<String>)
    ensures
        text_list(pieces@) == split_on(text@, at),
{
    let chars = chars_of(text);
    let mut pieces: Vec<String> = Vec::new();
    let mut piece = String::new();
    proof {
        assert(text@.take(0) =~= Seq::<char>::empty());
        assert(text_list(pieces@).push(piece@) =~= seq![Seq::<char>::empty()]);
    }
    for index in 0..chars.len()
        invariant
            chars@ == text@,
            text_list(pieces@).push(piece@) == split_on(text@.take(index as int), at),
    {
        let c = chars[index];
        let ghost done = text_list(pieces@);
        let ghost open = piece@;
        let ghost upto = text@.take(index + 1);
        assert(upto.drop_last() =~= text@.take(index as int));
        if c == at {
            pieces.push(piece);
            piece = String::new();
            proof {
                assert(piece@ =~= Seq::<char>::empty());
                assert(text_list(pieces@) =~= done.push(open));
            }
        } else {
            push_char(&mut piece, c);
            assert(done.push(open).drop_last() =~= done);
        }
    }
    let ghost done = text_list(pieces@);
    let ghost open = piece@;
    pieces.push(piece);
    assert(text_list(pieces@) =~= done.push(open));
    assert(text@.take(text@.len() as int) =~= text@);
    pieces
}

/// Whether a text occurs in another at a place.
pub open spec fn occurs_at(text: Seq<char>, pattern: Seq<char>, at: int) -> bool {
    0 <= at && at + pattern.len() <= text.len() && text.subrange(at, at + pattern.len()) == pattern
}

/// Whether a text occurs in another.
pub open spec fn occurs_in(text: Seq<char>, pattern: Seq<char>) -> bool {
    exists|at: int| occurs_at(text, pattern, at)
}

fn matches_at(text: &Vec<char>, pattern: &Vec<char>, at: usize) -> (matches: bool)
    requires
        at + pattern@.len() <= text@.len(),
    ensures
        matches == occurs_at(text@, pattern@, at as int),
{
    let ghost window = text@.subrange(at as int, at + pattern@.len());
    let total = text.len();
    for index in 0..pattern.len()
        invariant
            at + pattern@.len() <= text@.len(),
            total == text@.len(),
            window == text@.subrange(at as int, at + pattern@.len()),
            forall|i: int| 0 <= i < index ==> window[i] == pattern@[i],
    {
        if text[at + index] != pattern[index] {
            assert(window[index as int] != pattern@[index as int]);
            return false;
        }
        assert(window[index as int] == text@[at + index]);
    }
    assert(window =~= pattern@);
    true
}

/// Whether `pattern` occurs in `text`.
pub fn has_text(text: &str, pattern: &str) -> (has: bool)
    ensures
        has == occurs_in(text@, pattern@),
{
    let chars = chars_of(text);
    let wanted = chars_of(pattern);
    if wanted.len() > chars.len() {
        return false;
    }
    let last = chars.len() - wanted.len();
    for at in 0..last
        invariant
            chars@ == text@,
            wanted@ == pattern@,
            last == chars@.len() - wanted@.len(),
            forall|i: int| 0 <= i < at ==> !occurs_at(text@, pattern@, i),
    {
        if matches_at(&chars, &wanted, at) {
            return true;
        }
    }
    if matches_at(&chars, &wanted, last) {
        return true;
    }
    assert forall|i: int| !occurs_at(text@, pattern@, i) by {
        if 0 <= i && i + pattern@.len() <= text@.len() {
            assert(i <= last);
        }
    }
    false
}

/// Whether a text starts with another.
pub open spec fn starts_with(text: Seq<char>, front: Seq<char>) -> bool {
    occurs_at(text, front, 0)
}

/// What follows `front` in `text`, where `text` starts with it.
pub fn strip_front(text: &str, front: &str) -> (rest: Option<String>)
    ensures
        match rest {
            Some(rest) => starts_with(text@, front@) && rest@ == text@.skip(front@.len() as int),
            None => !starts_with(text@, front@),
        },
{
    let chars = chars_of(text);
    let wanted = chars_of(front);
    if wanted.len() > chars.len() || !matches_at(&chars, &wanted, 0) {
        return None;
    }
    assert(text@.subrange(front@.len() as int, text@.len() as int) =~= text@.skip(
        front@.len() as int,
    ));
    Some(text_between(&chars, wanted.len(), chars.len()))
}

/// Whether a list holds a text.
pub open spec fn lists_text(list: Seq<Seq<char>>, text: Seq<char>) -> bool {
    exists|i: int| 0 <= i < list.len() && #[trigger] list[i] == text
}

pub fn list_has(list: &Vec<String>, text: &str) -> (has: bool)
    ensures
        has == lists_text(text_list(list@), text@),
{
    let ghost all = text_list(list@);
    for at in 0..list.len()
        invariant
            all == text_list(list@),
            forall|i: int| 0 <= i < at ==> #[trigger] all[i] != text@,
    {
        if same_text(list[at].as_str(), text) {
            assert(all[at as int] == text@);
            return true;
        }
        assert(all[at as int] != text@);
    }
    false
}

// ---------------------------------------------------------------------------
// What the models promise
// ---------------------------------------------------------------------------

/// Letters from A to Z become those thirty-two places on; nothing else changes.
pub proof fn only_capital_letters_are_lowered(text: Seq<char>)
    ensures
        lowered(text).len() == text.len(),
        lowered(lowered(text)) == lowered(text),
        forall|i: int|
            0 <= i < text.len() ==> {
                let c = (#[trigger] text[i]) as u32;
                lowered(text)[i] as u32 == c || 65 <= c <= 90 && lowered(text)[i] as u32 == c + 32
            },
        forall|i: int|
            0 <= i < text.len() ==> !(65 <= (#[trigger] lowered(text)[i]) as u32 <= 90),
{
    assert forall|i: int| 0 <= i < text.len() implies lowered(lowered(text))[i]
        == lowered(text)[i] by {
        assert(lowered(text)[i] == lower(text[i]));
    }
    assert(lowered(lowered(text)) =~= lowered(text));
}

/// The value of a hexadecimal digit in lower case.
pub open spec fn hex_digit_value(c: char) -> int {
    if '0' <= c && c <= '9' { c as int - 48 } else { c as int - 97 + 10 }
}

pub open spec fn is_lower_hex_digit(c: char) -> bool {
    '0' <= c && c <= '9' || 'a' <= c && c <= 'f'
}

/// Two digits in lower case spell each byte, the higher one first.
pub proof fn two_digits_spell_a_byte(bytes: Seq<u8>)
    ensures
        hex_of(bytes).len() == 2 * bytes.len(),
        forall|i: int|
            0 <= i < hex_of(bytes).len() ==> is_lower_hex_digit(#[trigger] hex_of(bytes)[i]),
        forall|i: int|
            0 <= i < bytes.len() ==> hex_digit_value(hex_of(bytes)[2 * i]) * 16 + hex_digit_value(
                hex_of(bytes)[2 * i + 1],
            ) == #[trigger] bytes[i],
{
    assert forall|i: int| 0 <= i < bytes.len() implies hex_digit_value(hex_of(bytes)[2 * i]) * 16
        + hex_digit_value(hex_of(bytes)[2 * i + 1]) == #[trigger] bytes[i] by {
        assert((2 * i) / 2 == i && (2 * i + 1) / 2 == i);
    }
}

/// The number that digits in lower case spell in base sixteen.
pub open spec fn hex_value(digits: Seq<char>) -> int
    decreases digits.len(),
{
    if digits.len() == 0 {
        0
    } else {
        hex_value(digits.drop_last()) * 16 + hex_digit_value(digits.last())
    }
}

/// A number is spelled in base sixteen by its digits, with no needless zero in front.
pub proof fn hexadecimal_numbers_are_read_back(value: nat)
    ensures
        hex_value(hex_number(value)) == value,
        hex_number(value).len() >= 1,
        value > 0 ==> hex_number(value)[0] != '0',
        forall|i: int|
            0 <= i < hex_number(value).len() ==> is_lower_hex_digit(
                #[trigger] hex_number(value)[i],
            ),
    decreases value,
{
    let digits = hex_number(value);
    if value >= 16 {
        hexadecimal_numbers_are_read_back(value / 16);
        assert(digits.drop_last() =~= hex_number(value / 16));
        assert forall|i: int| 0 <= i < digits.len() implies is_lower_hex_digit(
            #[trigger] digits[i],
        ) by {
            if i < digits.len() - 1 {
                assert(digits[i] == hex_number(value / 16)[i]);
            }
        }
    } else {
        assert(digits.drop_last() =~= Seq::<char>::empty());
        reveal_with_fuel(hex_value, 2);
    }
}

/// Ten times a number and a digit is that number with the digit behind it; a digit alone spells
/// itself, and a minus sign stands before what is below zero.
pub proof fn decimal_digits_follow_one_another(front: nat, last: nat)
    requires
        last < 10,
    ensures
        front > 0 ==> decimal(10 * front + last) == decimal(front) + decimal(last),
        decimal(last).len() == 1,
        decimal(last)[0] as nat == 48 + last,
        signed_decimal(front as int) == decimal(front),
        front > 0 ==> signed_decimal(-(front as int)) == seq!['-'] + decimal(front),
{
    if front > 0 {
        let value = 10 * front + last;
        assert(value / 10 == front && value % 10 == last);
        assert(decimal(value) =~= decimal(front) + decimal(last));
    }
}

proof fn lemma_trimmed_front(text: Seq<char>) -> (at: int)
    ensures
        0 <= at <= text.len(),
        trimmed_front(text) == text.skip(at),
        forall|i: int| 0 <= i < at ==> is_white(#[trigger] text[i]),
        at < text.len() ==> !is_white(text[at]),
    decreases text.len(),
{
    if text.len() == 0 || !is_white(text[0]) {
        assert(text.skip(0) =~= text);
        0
    } else {
        let rest = text.drop_first();
        let at = lemma_trimmed_front(rest);
        assert(rest.skip(at) =~= text.skip(at + 1));
        assert forall|i: int| 0 <= i < at + 1 implies is_white(#[trigger] text[i]) by {
            if i > 0 {
                assert(is_white(rest[i - 1]));
            }
        }
        at + 1
    }
}

proof fn lemma_trimmed_back(text: Seq<char>) -> (end: int)
    ensures
        0 <= end <= text.len(),
        trimmed_back(text) == text.take(end),
        forall|i: int| end <= i < text.len() ==> is_white(#[trigger] text[i]),
        end > 0 ==> !is_white(text[end - 1]),
    decreases text.len(),
{
    if text.len() == 0 || !is_white(text.last()) {
        assert(text.take(text.len() as int) =~= text);
        text.len() as int
    } else {
        let less = text.drop_last();
        let end = lemma_trimmed_back(less);
        assert(less.take(end) =~= text.take(end));
        assert forall|i: int| end <= i < text.len() implies is_white(#[trigger] text[i]) by {
            if i < less.len() {
                assert(is_white(less[i]));
            }
        }
        end
    }
}

/// What is trimmed off is white space, and what is left starts and ends with something else.
pub proof fn trimming_drops_white_space_alone(text: Seq<char>)
    ensures
        exists|from: int, to: int|
            {
                &&& 0 <= from <= to <= text.len()
                &&& trimmed(text) == #[trigger] text.subrange(from, to)
                &&& forall|i: int| 0 <= i < from ==> is_white(#[trigger] text[i])
                &&& forall|i: int| to <= i < text.len() ==> is_white(#[trigger] text[i])
            },
        trimmed(text).len() > 0 ==> !is_white(trimmed(text)[0]) && !is_white(trimmed(text).last()),
        trimmed(trimmed(text)) == trimmed(text),
{
    let from = lemma_trimmed_front(text);
    let rest = text.skip(from);
    let end = lemma_trimmed_back(rest);
    let to = from + end;
    assert(rest.take(end) =~= text.subrange(from, to));
    assert forall|i: int| to <= i < text.len() implies is_white(#[trigger] text[i]) by {
        assert(is_white(rest[i - from]));
    }
    let kept = trimmed(text);
    if kept.len() > 0 {
        assert(kept[0] == text[from]);
        assert(kept.last() == rest[end - 1]);
    }
}

/// A text cut to a size is the longest front of it that fits.
pub proof fn the_longest_front_that_fits_is_kept(text: Seq<char>, limit: nat)
    ensures
        exists|end: int|
            {
                &&& 0 <= end <= text.len()
                &&& utf8_prefix(text, limit) == #[trigger] text.take(end)
                &&& utf8_len(text.take(end)) <= limit
                &&& forall|more: int|
                    end < more <= text.len() ==> utf8_len(#[trigger] text.take(more)) > limit
            },
    decreases text.len(),
{
    assert(text.take(text.len() as int) =~= text);
    if text.len() == 0 {
        assert(encode_utf8(text).len() == 0) by {
            reveal_with_fuel(encode_utf8, 1);
        }
    } else if utf8_len(text) > limit {
        let less = text.drop_last();
        the_longest_front_that_fits_is_kept(less, limit);
        let end = choose|end: int|
            {
                &&& 0 <= end <= less.len()
                &&& utf8_prefix(less, limit) == #[trigger] less.take(end)
                &&& utf8_len(less.take(end)) <= limit
                &&& forall|more: int|
                    end < more <= less.len() ==> utf8_len(#[trigger] less.take(more)) > limit
            };
        assert(text.take(end) =~= less.take(end));
        assert forall|more: int| end < more <= text.len() implies utf8_len(
            #[trigger] text.take(more),
        ) > limit by {
            if more <= less.len() {
                assert(text.take(more) =~= less.take(more));
            }
        }
    }
}

/// The pieces with the character put between them.
pub open spec fn rejoined(pieces: Seq<Seq<char>>, at: char) -> Seq<char>
    decreases pieces.len(),
{
    if pieces.len() <= 1 {
        if pieces.len() == 0 { Seq::empty() } else { pieces[0] }
    } else {
        rejoined(pieces.drop_last(), at) + seq![at] + pieces.last()
    }
}

/// The pieces of a text hold no such character, and make up the text with it put between them.
pub proof fn pieces_make_up_the_text(text: Seq<char>, at: char)
    ensures
        split_on(text, at).len() >= 1,
        rejoined(split_on(text, at), at) == text,
        forall|i: int|
            0 <= i < split_on(text, at).len() ==> !(#[trigger] split_on(text, at)[i]).contains(at),
    decreases text.len(),
{
    let pieces = split_on(text, at);
    if text.len() == 0 {
        assert(pieces[0] =~= text);
        assert(!text.contains(at));
    } else {
        let less = text.drop_last();
        let before = split_on(less, at);
        pieces_make_up_the_text(less, at);
        assert(less.push(text.last()) =~= text);
        if text.last() == at {
            assert(pieces.drop_last() =~= before);
            assert(rejoined(pieces, at) =~= less + seq![at] + Seq::empty());
            assert(rejoined(pieces, at) =~= text);
        } else {
            let longer = before.last().push(text.last());
            assert(pieces.drop_last() =~= before.drop_last());
            if before.len() == 1 {
                assert(rejoined(before, at) == before[0]);
                assert(rejoined(pieces, at) =~= text);
            } else {
                assert(rejoined(before, at) == rejoined(before.drop_last(), at) + seq![at]
                    + before.last());
                assert(rejoined(pieces, at) =~= less.push(text.last()));
            }
            assert(!longer.contains(at)) by {
                assert(!before[before.len() - 1].contains(at));
                if longer.contains(at) {
                    let i = choose|i: int| 0 <= i < longer.len() && longer[i] == at;
                    if i < before.last().len() {
                        assert(before.last()[i] == at);
                    }
                }
            }
            assert forall|i: int| 0 <= i < pieces.len() implies !(
            #[trigger] pieces[i]).contains(at) by {
                if i < before.len() - 1 {
                    assert(pieces[i] == before[i]);
                }
            }
        }
    }
}

} // verus!
