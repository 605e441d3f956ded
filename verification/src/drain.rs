//! How long the pipes of a killed group are drained.
use vstd::prelude::*;

use crate::strings::{chars_of, decimal, digit, trim_text, trimmed};

verus! {

/// The time that is waited unless the environment says otherwise.
pub const DEFAULT_KILL_DRAIN_TIMEOUT_MS: u64 = 2_000;

/// The environment variable that may name another time, in milliseconds.
pub const KILL_DRAIN_TIMEOUT_ENV: &'static str = "KERNAL_API_KILL_DRAIN_TIMEOUT_MS";

pub open spec fn is_digit(c: char) -> bool {
    '0' <= c && c <= '9'
}

/// The number that digits spell.
pub open spec fn digits_value(digits: Seq<char>) -> nat
    decreases digits.len(),
{
    if digits.len() == 0 {
        0
    } else {
        10 * digits_value(digits.drop_last()) + (digits.last() as nat - 48) as nat
    }
}

/// A text without one leading plus sign.
pub open spec fn unsigned_part(text: Seq<char>) -> Seq<char> {
    if text.len() > 0 && text[0] == '+' { text.skip(1) } else { text }
}

/// The 64-bit number that a text spells in decimal: digits and nothing else,
/// after one plus sign at most.
pub open spec fn parsed_u64(text: Seq<char>) -> Option<u64> {
    let digits = unsigned_part(text);
    if digits.len() == 0 || exists|i: int| 0 <= i < digits.len() && !is_digit(#[trigger] digits[i]) {
        None
    } else if digits_value(digits) > u64::MAX {
        None
    } else {
        Some(digits_value(digits) as u64)
    }
}

proof fn lemma_digits_grow(digits: Seq<char>, upto: nat)
    requires
        upto <= digits.len(),
        forall|i: int| 0 <= i < digits.len() ==> is_digit(#[trigger] digits[i]),
    ensures
        digits_value(digits.take(upto as int)) <= digits_value(digits),
    decreases digits.len() - upto,
{
    if upto == digits.len() {
        assert(digits.take(upto as int) =~= digits);
    } else {
        assert(digits.take((upto + 1) as int).drop_last() =~= digits.take(upto as int));
        lemma_digits_grow(digits, upto + 1);
    }
}

/// `str::parse::<u64>`.
pub fn parse_u64(text: &str) -> (number: Option<u64>)
    ensures
        number == parsed_u64(text@),
{
    let chars = chars_of(text);
    let start: usize = if chars.len() > 0 && chars[0] == '+' { 1 } else { 0 };
    let ghost digits = unsigned_part(text@);
    if chars.len() == start {
        assert(digits.len() == 0);
        return None;
    }
    let mut all_digits = true;
    for at in start..chars.len()
        invariant
            chars@ == text@,
            start <= chars@.len(),
            digits == text@.skip(start as int),
            all_digits ==> forall|i: int| 0 <= i < at - start ==> is_digit(#[trigger] digits[i]),
            !all_digits ==> exists|i: int|
                0 <= i < digits.len() && !is_digit(#[trigger] digits[i]),
    {
        assert(digits[at - start] == chars@[at as int]);
        if !('0' <= chars[at] && chars[at] <= '9') {
            assert(!is_digit(digits[at - start]));
            all_digits = false;
        }
    }
    if !all_digits {
        return None;
    }
    let mut value: u64 = 0;
    assert(digits.take(0) =~= Seq::<char>::empty());
    for at in start..chars.len()
        invariant
            chars@ == text@,
            start < chars@.len(),
            digits == text@.skip(start as int),
            digits == unsigned_part(text@),
            forall|i: int| 0 <= i < digits.len() ==> is_digit(#[trigger] digits[i]),
            value == digits_value(digits.take(at - start)),
    {
        assert(digits[at - start] == chars@[at as int]);
        assert(is_digit(digits[at - start]));
        let digit: u64 = (chars[at] as u32 - 48) as u64;
        proof {
            let upto = digits.take(at - start + 1);
            assert(upto.drop_last() =~= digits.take(at - start));
            assert(upto.last() == chars@[at as int]);
            lemma_digits_grow(digits, (at - start + 1) as nat);
        }
        if value > (u64::MAX - digit) / 10 {
            return None;
        }
        value = value * 10 + digit;
    }
    assert(digits.take(digits.len() as int) =~= digits);
    Some(value)
}

/// The time to wait: what the environment says, as far as it makes sense.
pub fn kill_drain_timeout(configured: Option<&str>) -> (milliseconds: u64)
    ensures
        milliseconds == match configured {
            Some(raw) => match parsed_u64(trimmed(raw@)) {
                Some(milliseconds) => milliseconds,
                None => DEFAULT_KILL_DRAIN_TIMEOUT_MS,
            },
            None => DEFAULT_KILL_DRAIN_TIMEOUT_MS,
        },
{
    match configured {
        Some(raw) => match parse_u64(trim_text(raw).as_str()) {
            Some(milliseconds) => milliseconds,
            None => DEFAULT_KILL_DRAIN_TIMEOUT_MS,
        },
        None => DEFAULT_KILL_DRAIN_TIMEOUT_MS,
    }
}

/// A number that was written is read back, with a plus sign in front or without, and with any
/// further zeros; one that does not fit, and anything that is not all digits, is no number.
pub proof fn written_numbers_are_read_back(value: nat)
    ensures
        value <= u64::MAX ==> parsed_u64(decimal(value)) == Some(value as u64),
        value <= u64::MAX ==> parsed_u64(seq!['+'] + decimal(value)) == Some(value as u64),
        value <= u64::MAX ==> parsed_u64(seq!['0'] + decimal(value)) == Some(value as u64),
        value > u64::MAX ==> parsed_u64(decimal(value)) is None,
        parsed_u64(Seq::empty()) is None,
        parsed_u64(seq!['+']) is None,
{
    lemma_digits_of(value);
    let digits = decimal(value);
    assert(digits[0] != '+') by {
        assert(is_digit(digits[0]));
    }
    assert((seq!['+'] + digits).skip(1) =~= digits);
    assert(seq!['+'].skip(1) =~= Seq::<char>::empty());
    let padded = seq!['0'] + digits;
    lemma_padded_value(digits);
    assert forall|i: int| 0 <= i < padded.len() implies is_digit(#[trigger] padded[i]) by {
        if i > 0 {
            assert(padded[i] == digits[i - 1]);
        }
    }
}

/// A text that holds anything but digits, after a plus sign or without one, is no number.
pub proof fn other_texts_are_no_numbers(text: Seq<char>, at: int)
    requires
        0 <= at < text.len(),
        !('0' <= text[at] && text[at] <= '9'),
        at > 0 || text[at] != '+',
    ensures
        parsed_u64(text) is None,
{
    let digits = unsigned_part(text);
    if text[0] == '+' {
        assert(!is_digit(digits[at - 1]));
    } else {
        assert(!is_digit(digits[at]));
    }
}

proof fn lemma_padded_value(digits: Seq<char>)
    ensures
        digits_value(seq!['0'] + digits) == digits_value(digits),
    decreases digits.len(),
{
    let padded = seq!['0'] + digits;
    if digits.len() == 0 {
        assert(padded.drop_last() =~= Seq::<char>::empty());
        reveal_with_fuel(digits_value, 2);
        assert(padded.last() == '0');
    } else {
        assert(padded.drop_last() =~= seq!['0'] + digits.drop_last());
        assert(padded.last() == digits.last());
        lemma_padded_value(digits.drop_last());
    }
}

proof fn lemma_digits_of(value: nat)
    ensures
        decimal(value).len() >= 1,
        digits_value(decimal(value)) == value,
        forall|i: int| 0 <= i < decimal(value).len() ==> is_digit(#[trigger] decimal(value)[i]),
    decreases value,
{
    let last = digit(value);
    assert(last as nat == value % 10 + 48);
    if value >= 10 {
        lemma_digits_of(value / 10);
        assert(decimal(value).drop_last() =~= decimal(value / 10));
        assert forall|i: int| 0 <= i < decimal(value).len() implies is_digit(
            #[trigger] decimal(value)[i],
        ) by {
            if i < decimal(value / 10).len() {
                assert(decimal(value)[i] == decimal(value / 10)[i]);
            }
        }
    } else {
        assert(decimal(value).drop_last() =~= Seq::<char>::empty());
        reveal_with_fuel(digits_value, 2);
    }
}

/// A time that is configured as a number counts, with space around it or without; anything else
/// leaves the customary two seconds.
pub proof fn configured_times_count(
    value: u64,
    text: &str,
    configured: u64,
    word: &str,
    at: int,
    other: u64,
    unset: u64,
)
    requires
        trimmed(text@) == decimal(value as nat),
        call_ensures(kill_drain_timeout, (Some(text),), configured),
        0 <= at < trimmed(word@).len(),
        !('0' <= trimmed(word@)[at] && trimmed(word@)[at] <= '9'),
        trimmed(word@)[at] != '+',
        call_ensures(kill_drain_timeout, (Some(word),), other),
        call_ensures(kill_drain_timeout, (None::<&str>,), unset),
    ensures
        configured == value,
        other == 2000,
        unset == 2000,
{
    written_numbers_are_read_back(value as nat);
    other_texts_are_no_numbers(trimmed(word@), at);
}

} // verus!
