//! Text in UTF-16, as the Windows host takes it.
use vstd::prelude::*;

use crate::strings::chars_of;

verus! {

/// One character in UTF-16: itself, or a pair of surrogates.
pub open spec fn utf16_char(c: char) -> Seq<u16> {
    let v = c as u32;
    if v < 0x10000 {
        seq![v as u16]
    } else {
        seq![
            (0xd800 + (v - 0x10000) / 0x400) as u16,
            (0xdc00 + (v - 0x10000) % 0x400) as u16,
        ]
    }
}

/// A text in UTF-16.
pub open spec fn utf16(text: Seq<char>) -> Seq<u16>
    decreases text.len(),
{
    if text.len() == 0 { Seq::empty() } else { utf16(text.drop_last()) + utf16_char(text.last()) }
}

/// Appends a text in UTF-16.
pub fn encode_wide(text: &str, out: &mut Vec<u16>)
    ensures
        final(out)@ == old(out)@ + utf16(text@),
{
    let chars = chars_of(text);
    assert(out@ + utf16(text@.take(0)) =~= out@);
    for at in 0..chars.len()
        invariant
            chars@ == text@,
            out@ == old(out)@ + utf16(text@.take(at as int)),
    {
        let ghost before = out@;
        let v: u32 = chars[at] as u32;
        if v < 0x10000 {
            out.push(v as u16);
        } else {
            proof {
                vstd::utf8::char_is_scalar(text@[at as int]);
            }
            out.push((0xd800 + (v - 0x10000) / 0x400) as u16);
            out.push((0xdc00 + (v - 0x10000) % 0x400) as u16);
        }
        proof {
            let upto = text@.take(at + 1);
            assert(upto.drop_last() =~= text@.take(at as int));
            assert(out@ =~= before + utf16_char(text@[at as int]));
            assert(out@ =~= old(out)@ + utf16(upto));
        }
    }
    assert(text@.take(text@.len() as int) =~= text@);
}

/// Texts are written one after the other, a character of the first plane as its own number, any
/// other as a high and a low half that make up its number.
pub proof fn wide_texts_spell_their_characters(first: Seq<char>, second: Seq<char>, c: char)
    ensures
        utf16(first + second) == utf16(first) + utf16(second),
        utf16(seq![c]) == utf16_char(c),
        (c as u32) < 0x10000 ==> utf16_char(c) == seq![c as u16],
        (c as u32) >= 0x10000 ==> {
            let units = utf16_char(c);
            &&& units.len() == 2
            &&& 0xd800 <= units[0] < 0xdc00
            &&& 0xdc00 <= units[1] < 0xe000
            &&& c as u32 == 0x10000 + 1024 * (units[0] - 0xd800) + (units[1] - 0xdc00)
        },
    decreases second.len(),
{
    assert(seq![c].drop_last() =~= Seq::empty());
    assert(utf16(seq![c].drop_last()) =~= Seq::empty());
    assert(utf16(seq![c]) =~= utf16_char(c));
    if second.len() == 0 {
        assert(first + second =~= first);
        assert(utf16(first) + utf16(second) =~= utf16(first));
    } else {
        wide_texts_spell_their_characters(first, second.drop_last(), c);
        assert((first + second).drop_last() =~= first + second.drop_last());
        assert((first + second).last() == second.last());
        assert(utf16(first + second) =~= utf16(first) + utf16(second));
    }
}

} // verus!
