//! Numbers in the records of the host, low byte first.
use vstd::prelude::*;

verus! {

/// An unsigned number, low byte first.
pub open spec fn le_number(bytes: Seq<u8>) -> nat
    decreases bytes.len(),
{
    if bytes.len() == 0 { 0 } else { bytes[0] as nat + 256 * le_number(bytes.drop_first()) }
}

/// The number in `width` bytes at `at`.
pub open spec fn le_at(bytes: Seq<u8>, at: int, width: int) -> nat {
    le_number(bytes.subrange(at, at + width))
}

/// A 64-bit number read as signed.
pub open spec fn signed64(value: nat) -> int {
    if value < 0x8000_0000_0000_0000 { value as int } else { value - 0x1_0000_0000_0000_0000 }
}

pub fn read_u16(bytes: &[u8], at: usize) -> (value: u16)
    requires
        at + 2 <= bytes@.len(),
    ensures
        value == le_at(bytes@, at as int, 2),
{
    let total = bytes.len();
    proof {
        let field = bytes@.subrange(at as int, at + 2);
        reveal_with_fuel(le_number, 3);
        assert(field.drop_first().drop_first() =~= Seq::<u8>::empty());
    }
    bytes[at] as u16 + 256 * bytes[at + 1] as u16
}

pub fn read_u32(bytes: &[u8], at: usize) -> (value: u32)
    requires
        at + 4 <= bytes@.len(),
    ensures
        value == le_at(bytes@, at as int, 4),
{
    let total = bytes.len();
    let low = read_u16(bytes, at);
    let high = read_u16(bytes, at + 2);
    proof {
        lemma_le_split(bytes@, at as int, 2, 2);
        let p = power256(2);
        let h = le_at(bytes@, at + 2, 2);
        assert(p == 65536) by {
            reveal_with_fuel(power256, 3);
        }
        assert(p * h == 65536 * h) by (nonlinear_arith)
            requires
                p == 65536,
        ;
    }
    low as u32 + 65536 * high as u32
}

pub fn read_u64(bytes: &[u8], at: usize) -> (value: u64)
    requires
        at + 8 <= bytes@.len(),
    ensures
        value == le_at(bytes@, at as int, 8),
{
    let total = bytes.len();
    let low = read_u32(bytes, at);
    let high = read_u32(bytes, at + 4);
    proof {
        lemma_le_split(bytes@, at as int, 4, 4);
        let p = power256(4);
        let h = le_at(bytes@, at + 4, 4);
        assert(p == 4294967296) by {
            reveal_with_fuel(power256, 5);
        }
        assert(p * h == 4294967296 * h) by (nonlinear_arith)
            requires
                p == 4294967296,
        ;
    }
    let upper: u64 = high as u64 * 4294967296u64;
    upper + low as u64
}

pub fn read_i64(bytes: &[u8], at: usize) -> (value: i64)
    requires
        at + 8 <= bytes@.len(),
    ensures
        value == signed64(le_at(bytes@, at as int, 8)),
{
    let value = read_u64(bytes, at);
    if value < 0x8000_0000_0000_0000 {
        value as i64
    } else {
        -((u64::MAX - value) as i64) - 1
    }
}

spec fn power256(count: nat) -> nat
    decreases count,
{
    if count == 0 { 1 } else { 256 * power256((count - 1) as nat) }
}

proof fn lemma_le_concat(low: Seq<u8>, high: Seq<u8>)
    ensures
        le_number(low + high) == le_number(low) + power256(low.len()) * le_number(high),
    decreases low.len(),
{
    if low.len() == 0 {
        assert(low + high =~= high);
        let one = power256(0);
        let h = le_number(high);
        assert(one * h == h) by (nonlinear_arith)
            requires
                one == 1,
        ;
    } else {
        assert((low + high).drop_first() =~= low.drop_first() + high);
        lemma_le_concat(low.drop_first(), high);
        let p = power256(low.drop_first().len());
        let h = le_number(high);
        let l = le_number(low.drop_first());
        assert(256 * (l + p * h) == 256 * l + (256 * p) * h) by (nonlinear_arith);
        assert((low + high)[0] == low[0]);
        assert(power256(low.len()) == 256 * p);
    }
}

proof fn lemma_le_split(bytes: Seq<u8>, at: int, low: int, high: int)
    requires
        0 <= at,
        0 <= low,
        0 <= high,
        at + low + high <= bytes.len(),
    ensures
        le_at(bytes, at, low + high) == le_at(bytes, at, low) + power256(low as nat) * le_at(
            bytes,
            at + low,
            high,
        ),
{
    let first = bytes.subrange(at, at + low);
    let second = bytes.subrange(at + low, at + low + high);
    assert(bytes.subrange(at, at + low + high) =~= first + second);
    lemma_le_concat(first, second);
}

/// The bytes of a 32-bit number, low byte first.
pub open spec fn le_bytes32(value: u32) -> Seq<u8> {
    seq![
        (value % 256) as u8,
        (value / 256 % 256) as u8,
        (value / 65536 % 256) as u8,
        (value / 16777216) as u8,
    ]
}

/// Those bytes stand for the number.
pub proof fn lemma_le_bytes32(value: u32)
    ensures
        le_number(le_bytes32(value)) == value,
{
    let bytes = le_bytes32(value);
    reveal_with_fuel(le_number, 5);
    assert(bytes.drop_first().drop_first().drop_first().drop_first() =~= Seq::<u8>::empty());
    assert(value == value % 256 + 256 * (value / 256 % 256) + 65536 * (value / 65536 % 256)
        + 16777216 * (value / 16777216)) by (nonlinear_arith);
}

/// In two, four and eight bytes, each byte counts 256 times the one before it, and a number
/// with the top bit of eight bytes set is negative.
pub proof fn low_bytes_come_first(bytes: Seq<u8>, at: int)
    ensures
        0 <= at && at + 2 <= bytes.len() ==> le_at(bytes, at, 2) == bytes[at] + 256 * bytes[at + 1],
        0 <= at && at + 4 <= bytes.len() ==> le_at(bytes, at, 4) == bytes[at] + 256 * bytes[at + 1]
            + 65536 * bytes[at + 2] + 16777216 * bytes[at + 3],
        0 <= at && at + 8 <= bytes.len() ==> {
            &&& le_at(bytes, at, 8) == le_at(bytes, at, 4) + 4294967296 * le_at(bytes, at + 4, 4)
            &&& signed64(le_at(bytes, at, 8)) < 0 <==> bytes[at + 7] >= 128
            &&& signed64(le_at(bytes, at, 8)) >= 0 ==> signed64(le_at(bytes, at, 8)) == le_at(
                bytes,
                at,
                8,
            )
            &&& signed64(le_at(bytes, at, 8)) < 0 ==> signed64(le_at(bytes, at, 8)) == le_at(
                bytes,
                at,
                8,
            ) - 18446744073709551616
        },
{
    if 0 <= at && at + 2 <= bytes.len() {
        lemma_two(bytes, at);
    }
    if 0 <= at && at + 4 <= bytes.len() {
        lemma_four(bytes, at);
    }
    if 0 <= at && at + 8 <= bytes.len() {
        lemma_four(bytes, at);
        lemma_four(bytes, at + 4);
        lemma_le_split(bytes, at, 4, 4);
        let p = power256(4);
        let h = le_at(bytes, at + 4, 4);
        assert(p == 4294967296) by {
            reveal_with_fuel(power256, 5);
        }
        assert(p * h == 4294967296 * h) by (nonlinear_arith)
            requires
                p == 4294967296,
        ;
    }
}

proof fn lemma_two(bytes: Seq<u8>, at: int)
    requires
        0 <= at,
        at + 2 <= bytes.len(),
    ensures
        le_at(bytes, at, 2) == bytes[at] + 256 * bytes[at + 1],
{
    let field = bytes.subrange(at, at + 2);
    reveal_with_fuel(le_number, 3);
    assert(field.drop_first().drop_first() =~= Seq::<u8>::empty());
}

proof fn lemma_four(bytes: Seq<u8>, at: int)
    requires
        0 <= at,
        at + 4 <= bytes.len(),
    ensures
        le_at(bytes, at, 4) == bytes[at] + 256 * bytes[at + 1] + 65536 * bytes[at + 2] + 16777216
            * bytes[at + 3],
{
    lemma_two(bytes, at);
    lemma_two(bytes, at + 2);
    lemma_le_split(bytes, at, 2, 2);
    let p = power256(2);
    let h = le_at(bytes, at + 2, 2);
    assert(p == 65536) by {
        reveal_with_fuel(power256, 3);
    }
    assert(p * h == 65536 * h) by (nonlinear_arith)
        requires
            p == 65536,
    ;
}

} // verus!
