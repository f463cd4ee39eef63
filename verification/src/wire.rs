//! The wire formats of integers: big-endian, two's complement, in 1, 2 or 4 bytes.

use vstd::prelude::*;
use crate::code::{TYPE_I16, TYPE_I32, TYPE_I8, TYPE_U16, TYPE_U32, TYPE_U8};

verus! {

/// The `width` bytes that spell the integer `v` in two's complement, the most
/// significant byte first, for a width of 1, 2 or 4.
pub open spec fn be_int(v: int, width: nat) -> Seq<u8> {
    if width == 1 {
        seq![(v % 0x100) as u8]
    } else if width == 2 {
        seq![(v / 0x100 % 0x100) as u8, (v % 0x100) as u8]
    } else {
        seq![
            (v / 0x100_0000 % 0x100) as u8,
            (v / 0x1_0000 % 0x100) as u8,
            (v / 0x100 % 0x100) as u8,
            (v % 0x100) as u8,
        ]
    }
}

/// The number of values that `width` bytes can tell apart, for a width of 1, 2 or 4.
pub open spec fn modulus(width: nat) -> int {
    if width == 1 {
        0x100
    } else if width == 2 {
        0x1_0000
    } else {
        0x1_0000_0000
    }
}

/// The non-negative integer that 1, 2 or 4 bytes spell, the most significant first.
pub open spec fn be_unsigned(b: Seq<u8>) -> int {
    if b.len() == 1 {
        b[0] as int
    } else if b.len() == 2 {
        b[0] * 0x100 + b[1]
    } else {
        b[0] * 0x100_0000 + b[1] * 0x1_0000 + b[2] * 0x100 + b[3]
    }
}

/// The integer that 1, 2 or 4 bytes spell in two's complement.
pub open spec fn be_signed(b: Seq<u8>) -> int {
    let u = be_unsigned(b);
    if 2 * u >= modulus(b.len()) {
        u - modulus(b.len())
    } else {
        u
    }
}

/// Whether a tag names a signed integer type.
pub open spec fn is_signed(ty: u32) -> bool {
    ty == TYPE_I8 || ty == TYPE_I16 || ty == TYPE_I32
}

/// Whether a buffer declared as `ty` with `len` bytes holds an integer.
pub open spec fn is_int(ty: u32, len: nat) -> bool {
    ||| (ty == TYPE_U8 || ty == TYPE_I8) && len == 1
    ||| (ty == TYPE_U16 || ty == TYPE_I16) && len == 2
    ||| (ty == TYPE_U32 || ty == TYPE_I32) && len == 4
}

/// The least integer that the integer type `ty` of `len` bytes can hold.
pub open spec fn int_min(ty: u32, len: nat) -> int {
    if is_signed(ty) {
        -(modulus(len) / 2)
    } else {
        0
    }
}

/// The greatest integer that the integer type `ty` of `len` bytes can hold.
pub open spec fn int_max(ty: u32, len: nat) -> int {
    if is_signed(ty) {
        modulus(len) / 2 - 1
    } else {
        modulus(len) - 1
    }
}

/// The integer that the bytes `b` of a buffer of the integer type `ty` spell.
pub open spec fn wire_int(ty: u32, b: Seq<u8>) -> int {
    if is_signed(ty) {
        be_signed(b)
    } else {
        be_unsigned(b)
    }
}

/// Whether a buffer declared as `ty` with `len` bytes can be read as an integer
/// between `lo` and `hi` whatever it holds: it is of an integer type, and every
/// value of that type lies in the range. Nothing is ever narrowed.
pub open spec fn reads_within(ty: u32, len: nat, lo: int, hi: int) -> bool {
    is_int(ty, len) && lo <= int_min(ty, len) && int_max(ty, len) <= hi
}

/// Whether a buffer declared as `ty` with `len` bytes can take every integer
/// between `lo` and `hi`: it is of an integer type that holds them all.
pub open spec fn takes_all(ty: u32, len: nat, lo: int, hi: int) -> bool {
    is_int(ty, len) && int_min(ty, len) <= lo && hi <= int_max(ty, len)
}

/// The digits of a number in base 256 are found again by division.
proof fn lemma_digits2(b0: int, b1: int, k: int)
    requires
        0 <= b0 < 0x100,
        0 <= b1 < 0x100,
    ensures
        (b0 * 0x100 + b1 + k * 0x1_0000) % 0x100 == b1,
        (b0 * 0x100 + b1 + k * 0x1_0000) / 0x100 % 0x100 == b0,
{
}

/// The digits of a number in base 256 are found again by division.
proof fn lemma_digits4(b0: int, b1: int, b2: int, b3: int, k: int)
    requires
        0 <= b0 < 0x100,
        0 <= b1 < 0x100,
        0 <= b2 < 0x100,
        0 <= b3 < 0x100,
    ensures
        ({
            let v = b0 * 0x100_0000 + b1 * 0x1_0000 + b2 * 0x100 + b3 + k * 0x1_0000_0000;
            &&& v % 0x100 == b3
            &&& v / 0x100 % 0x100 == b2
            &&& v / 0x1_0000 % 0x100 == b1
            &&& v / 0x100_0000 % 0x100 == b0
        }),
{
    let v = b0 * 0x100_0000 + b1 * 0x1_0000 + b2 * 0x100 + b3 + k * 0x1_0000_0000;
    let q1 = b0 * 0x1_0000 + b1 * 0x100 + b2 + k * 0x100_0000;
    let q2 = b0 * 0x100 + b1 + k * 0x1_0000;
    let q3 = b0 + k * 0x100;
    assert(v == q1 * 0x100 + b3);
    assert(v / 0x100 == q1);
    assert(q1 == q2 * 0x100 + b2);
    assert(v == q2 * 0x1_0000 + (b2 * 0x100 + b3));
    assert(v / 0x1_0000 == q2);
    assert(v == q3 * 0x100_0000 + (b1 * 0x1_0000 + b2 * 0x100 + b3));
    assert(v / 0x100_0000 == q3);
}

/// A number is the sum of its digits in base 256.
proof fn lemma_sum4(v: int)
    ensures
        v == (v / 0x100_0000) * 0x100_0000 + (v / 0x1_0000 % 0x100) * 0x1_0000 + (v / 0x100
            % 0x100) * 0x100 + v % 0x100,
{
    let q1 = v / 0x100;
    let q2 = v / 0x1_0000;
    let q3 = v / 0x100_0000;
    assert(q2 == q1 / 0x100);
    assert(q3 == q2 / 0x100);
}

/// Adding a multiple of the modulus changes no byte.
pub proof fn lemma_be_int_wraps(v: int, width: nat, k: int)
    requires
        width == 1 || width == 2 || width == 4,
    ensures
        be_int(v + k * modulus(width), width) == be_int(v, width),
{
    let w = v + k * modulus(width);
    if width == 1 {
        assert(w % 0x100 == v % 0x100);
    } else if width == 2 {
        lemma_digits2(v / 0x100 % 0x100, v % 0x100, v / 0x1_0000 + k);
        assert(v / 0x1_0000 == v / 0x100 / 0x100);
    } else {
        lemma_sum4(v);
        lemma_digits4(
            v / 0x100_0000 % 0x100,
            v / 0x1_0000 % 0x100,
            v / 0x100 % 0x100,
            v % 0x100,
            v / 0x1_0000_0000 + k,
        );
        lemma_digits4(
            v / 0x100_0000 % 0x100,
            v / 0x1_0000 % 0x100,
            v / 0x100 % 0x100,
            v % 0x100,
            v / 0x1_0000_0000,
        );
        assert(v / 0x1_0000_0000 == v / 0x100_0000 / 0x100);
    }
    assert(be_int(w, width) =~= be_int(v, width));
}

/// The bytes of a non-negative number below the modulus spell that number.
pub proof fn lemma_unsigned_of_be_int(v: int, width: nat)
    requires
        width == 1 || width == 2 || width == 4,
        0 <= v < modulus(width),
    ensures
        be_int(v, width).len() == width,
        be_unsigned(be_int(v, width)) == v,
{
    if width == 4 {
        lemma_sum4(v);
    }
}

/// The bytes that spell a number are the bytes of that number.
pub proof fn lemma_be_int_of_unsigned(b: Seq<u8>)
    requires
        b.len() == 1 || b.len() == 2 || b.len() == 4,
    ensures
        0 <= be_unsigned(b) < modulus(b.len()),
        be_int(be_unsigned(b), b.len()) == b,
{
    if b.len() == 2 {
        lemma_digits2(b[0] as int, b[1] as int, 0);
    } else if b.len() == 4 {
        lemma_digits4(b[0] as int, b[1] as int, b[2] as int, b[3] as int, 0);
    }
    assert(be_int(be_unsigned(b), b.len()) =~= b);
}

/// An integer written in the wire format of an integer type that can hold it
/// reads back as itself.
pub proof fn lemma_int_round_trip(ty: u32, len: nat, v: int)
    requires
        is_int(ty, len),
        int_min(ty, len) <= v <= int_max(ty, len),
    ensures
        be_int(v, len).len() == len,
        wire_int(ty, be_int(v, len)) == v,
{
    if v < 0 {
        lemma_be_int_wraps(v, len, 1);
        lemma_unsigned_of_be_int(v + modulus(len), len);
    } else {
        lemma_unsigned_of_be_int(v, len);
    }
}

/// The bytes of an integer type, read as an integer and written again, are the
/// same bytes, and the integer lies in the range of the type.
pub proof fn lemma_bytes_round_trip(ty: u32, b: Seq<u8>)
    requires
        is_int(ty, b.len()),
    ensures
        int_min(ty, b.len()) <= wire_int(ty, b) <= int_max(ty, b.len()),
        be_int(wire_int(ty, b), b.len()) == b,
{
    lemma_be_int_of_unsigned(b);
    if wire_int(ty, b) != be_unsigned(b) {
        lemma_be_int_wraps(be_unsigned(b), b.len(), -1);
    }
}

} // verus!
