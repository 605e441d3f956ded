//! The checksum that `.gnu_debuglink` records: reflected IEEE CRC-32.
use vstd::prelude::*;

verus! {

/// The reflected generator polynomial.
pub const POLYNOMIAL: u32 = 0xedb8_8320;

/// One bit of polynomial division.
pub open spec fn shifted(value: u32) -> u32 {
    if value & 1 == 1 { POLYNOMIAL ^ (value >> 1) } else { value >> 1 }
}

/// `count` bits of polynomial division.
pub open spec fn shifted_by(value: u32, count: nat) -> u32
    decreases count,
{
    if count == 0 { value } else { shifted(shifted_by(value, (count - 1) as nat)) }
}

/// The remainder after the given bytes, before the final inversion.
pub open spec fn remainder(bytes: Seq<u8>) -> u32
    decreases bytes.len(),
{
    if bytes.len() == 0 {
        0xffff_ffff
    } else {
        shifted_by(remainder(bytes.drop_last()) ^ (bytes.last() as u32), 8)
    }
}

/// The CRC-32 of `bytes`.
pub open spec fn crc32_of(bytes: Seq<u8>) -> u32 {
    remainder(bytes) ^ 0xffff_ffff
}

spec fn is_table(table: Seq<u32>) -> bool {
    &&& table.len() == 256
    &&& forall|i: int| 0 <= i < 256 ==> table[i] == shifted_by(#[trigger] (i as u32), 8)
}

fn build_table() -> (table: Vec<u32>)
    ensures
        is_table(table@),
{
    let mut table: Vec<u32> = Vec::new();
    for index in 0..256u32
        invariant
            table@.len() == index,
            forall|i: int| 0 <= i < index ==> table@[i] == shifted_by(#[trigger] (i as u32), 8),
    {
        let mut value: u32 = index;
        for bit in 0..8u32
            invariant
                value == shifted_by(index, bit as nat),
        {
            value = if value & 1 == 1 { POLYNOMIAL ^ (value >> 1) } else { value >> 1 };
        }
        table.push(value);
    }
    table
}

/// Division is linear, so eight bits of it split into a table entry for the low
/// byte and a plain shift of the rest.
proof fn lemma_byte_step(value: u32)
    ensures
        shifted_by(value, 8) == shifted_by(value & 0xff, 8) ^ (value >> 8),
{
    let low = value & 0xff;
    let high = value & 0xffff_ff00;
    assert(value == low ^ high && high & 0xff == 0 && high >> 8 == value >> 8) by (bit_vector)
        requires
            low == value & 0xff,
            high == value & 0xffff_ff00,
    ;
    lemma_linear(low, high);
}

/// A value whose low byte is clear is only shifted.
proof fn lemma_linear(low: u32, high: u32)
    requires
        high & 0xff == 0,
    ensures
        shifted_by(low ^ high, 8) == shifted_by(low, 8) ^ (high >> 8),
{
    reveal_with_fuel(shifted_by, 9);
    lemma_bit(low, high);
    let l1 = shifted(low);
    lemma_bit(l1, high >> 1);
    let l2 = shifted(l1);
    lemma_bit(l2, high >> 2);
    let l3 = shifted(l2);
    lemma_bit(l3, high >> 3);
    let l4 = shifted(l3);
    lemma_bit(l4, high >> 4);
    let l5 = shifted(l4);
    lemma_bit(l5, high >> 5);
    let l6 = shifted(l5);
    lemma_bit(l6, high >> 6);
    let l7 = shifted(l6);
    lemma_bit(l7, high >> 7);
    assert((high >> 1) & 1 == 0 && (high >> 2) & 1 == 0 && (high >> 3) & 1
        == 0 && (high >> 4) & 1 == 0 && (high >> 5) & 1 == 0 && (high >> 6) & 1 == 0 && (high >> 7)
        & 1 == 0 && high & 1 == 0 && (high >> 1) >> 1 == high >> 2 && (high >> 2) >> 1 == high >> 3
        && (high >> 3) >> 1 == high >> 4 && (high >> 4) >> 1 == high >> 5 && (high >> 5) >> 1
        == high >> 6 && (high >> 6) >> 1 == high >> 7 && (high >> 7) >> 1 == high >> 8)
        by (bit_vector)
        requires
            high & 0xff == 0,
    ;
}

proof fn lemma_bit(low: u32, high: u32)
    ensures
        high & 1 == 0 ==> shifted(low ^ high) == shifted(low) ^ (high >> 1),
{
    if high & 1 == 0 {
        assert((low ^ high) & 1 == low & 1) by (bit_vector)
            requires
                high & 1 == 0,
        ;
        assert((low ^ high) >> 1 == (low >> 1) ^ (high >> 1)) by (bit_vector);
        let p = POLYNOMIAL;
        let a = low >> 1;
        let b = high >> 1;
        assert(p ^ (a ^ b) == (p ^ a) ^ b) by (bit_vector);
    }
}

/// The CRC-32 of `bytes`, a byte at a time by table.
pub fn crc32(bytes: &[u8]) -> (crc: u32)
    ensures
        crc == crc32_of(bytes@),
{
    let table = build_table();
    let mut crc: u32 = 0xffff_ffff;
    for at in 0..bytes.len()
        invariant
            is_table(table@),
            crc == remainder(bytes@.take(at as int)),
    {
        let byte: u32 = bytes[at] as u32;
        let mixed: u32 = crc ^ byte;
        let index: u32 = mixed & 0xff;
        proof {
            assert(index < 256) by (bit_vector)
                requires
                    index == mixed & 0xff,
            ;
            assert(mixed >> 8 == crc >> 8) by (bit_vector)
                requires
                    mixed == crc ^ byte,
                    byte < 256,
            ;
            lemma_byte_step(mixed);
            let upto = bytes@.take(at + 1);
            assert(upto.drop_last() =~= bytes@.take(at as int));
            assert(table@[index as int] == shifted_by((index as int) as u32, 8));
        }
        crc = table[index as usize] ^ (crc >> 8);
    }
    assert(bytes@.take(bytes@.len() as int) =~= bytes@);
    crc ^ 0xffff_ffff
}

proof fn lemma_shift_injective(first: u32, second: u32)
    requires
        shifted(first) == shifted(second),
    ensures
        first == second,
{
    assert(first == second) by (bit_vector)
        requires
            (if first & 1 == 1 { 0xedb8_8320u32 ^ (first >> 1) } else { first >> 1 }) == (if second
                & 1 == 1 { 0xedb8_8320u32 ^ (second >> 1) } else { second >> 1 }),
    ;
}

proof fn lemma_shifts_injective(first: u32, second: u32, count: nat)
    requires
        shifted_by(first, count) == shifted_by(second, count),
    ensures
        first == second,
    decreases count,
{
    if count > 0 {
        let less = (count - 1) as nat;
        lemma_shift_injective(shifted_by(first, less), shifted_by(second, less));
        lemma_shifts_injective(first, second, less);
    }
}

proof fn lemma_remainder_injective(first: Seq<u8>, second: Seq<u8>, back: Seq<u8>)
    requires
        remainder(first + back) == remainder(second + back),
    ensures
        remainder(first) == remainder(second),
    decreases back.len(),
{
    if back.len() == 0 {
        assert(first + back =~= first);
        assert(second + back =~= second);
    } else {
        let front = back.drop_last();
        let byte = back.last() as u32;
        assert((first + back).drop_last() =~= first + front);
        assert((second + back).drop_last() =~= second + front);
        let a = remainder(first + front);
        let b = remainder(second + front);
        lemma_shifts_injective(a ^ byte, b ^ byte, 8);
        assert(a == b) by (bit_vector)
            requires
                a ^ byte == b ^ byte,
        ;
        lemma_remainder_injective(first, second, front);
    }
}

/// No byte is ignored: two texts that differ in one byte, wherever it stands, have different
/// checksums.
pub proof fn every_byte_changes_the_checksum(front: Seq<u8>, first: u8, second: u8, back: Seq<u8>)
    requires
        first != second,
    ensures
        crc32_of(front + seq![first] + back) != crc32_of(front + seq![second] + back),
{
    let a = front + seq![first];
    let b = front + seq![second];
    let x = remainder(a + back);
    let y = remainder(b + back);
    if crc32_of(a + back) == crc32_of(b + back) {
        assert(x == y) by (bit_vector)
            requires
                x ^ 0xffff_ffff == y ^ 0xffff_ffff,
        ;
        lemma_remainder_injective(a, b, back);
        assert(a.drop_last() =~= front);
        assert(b.drop_last() =~= front);
        let state = remainder(front);
        lemma_shifts_injective(state ^ (first as u32), state ^ (second as u32), 8);
        assert(first == second) by (bit_vector)
            requires
                state ^ (first as u32) == state ^ (second as u32),
        ;
    }
}

/// Every text, whatever it ends with, goes on from where it stands: what follows two texts of
/// one checksum keeps them alike, and never makes two different ones alike.
pub proof fn checksums_go_on(first: Seq<u8>, second: Seq<u8>, back: Seq<u8>)
    ensures
        crc32_of(first) == crc32_of(second) <==> crc32_of(first + back) == crc32_of(second + back),
        crc32_of(Seq::empty()) == 0,
    decreases back.len(),
{
    let p = remainder(first);
    let q = remainder(second);
    assert(0xffff_ffffu32 ^ 0xffff_ffffu32 == 0) by (bit_vector);
    assert(p == q <==> p ^ 0xffff_ffff == q ^ 0xffff_ffff) by (bit_vector);
    if back.len() == 0 {
        assert(first + back =~= first);
        assert(second + back =~= second);
    } else {
        let front = back.drop_last();
        checksums_go_on(first, second, front);
        assert((first + back).drop_last() =~= first + front);
        assert((second + back).drop_last() =~= second + front);
        let a = remainder(first + front);
        let b = remainder(second + front);
        let byte = back.last() as u32;
        assert(a == b <==> a ^ 0xffff_ffff == b ^ 0xffff_ffff) by (bit_vector);
        assert(a == b <==> a ^ byte == b ^ byte) by (bit_vector);
        let c = remainder(first + back);
        let d = remainder(second + back);
        assert(c == d <==> c ^ 0xffff_ffff == d ^ 0xffff_ffff) by (bit_vector);
        if c == d {
            lemma_shifts_injective(a ^ byte, b ^ byte, 8);
        }
    }
}

} // verus!
