//! Four-byte codes: the names of registers and the tags of their wire types.

use vstd::prelude::*;
use crate::wire::{be_int, be_unsigned};

verus! {

/// The error of the `four_char_code` crate, `FccConversionError`. It is carried
/// through as it is: nothing is known of what it holds.
#[verifier::external_type_specification]
#[verifier::external_body]
pub struct ExFccConversionError(four_char_code::FccConversionError);

/// The tag of a one-byte flag.
pub const TYPE_FLAG: u32 = 0x666c_6167;

/// The tag of a signed byte.
pub const TYPE_I8: u32 = 0x7369_3820;

/// The tag of an unsigned byte.
pub const TYPE_U8: u32 = 0x7569_3820;

/// The tag of a signed 16-bit integer.
pub const TYPE_I16: u32 = 0x7369_3136;

/// The tag of an unsigned 16-bit integer.
pub const TYPE_U16: u32 = 0x7569_3136;

/// The tag of a signed 32-bit integer.
pub const TYPE_I32: u32 = 0x7369_3332;

/// The tag of an unsigned 32-bit integer.
pub const TYPE_U32: u32 = 0x7569_3332;

/// The tag of an IEEE-754 single.
pub const TYPE_FLT: u32 = 0x666c_7420;

/// The tag of an unsigned fixed-point number with two fractional bits.
pub const TYPE_FPE2: u32 = 0x6670_6532;

/// The tag of a signed fixed-point number with eight fractional bits.
pub const TYPE_SP78: u32 = 0x7370_3738;

/// The tag of a fan description block.
pub const TYPE_FAN: u32 = 0x7b66_6473;

/// The bytes with each zero byte of the trailing run of zeros replaced by a space.
pub open spec fn padded(b: Seq<u8>) -> Seq<u8> {
    Seq::new(
        b.len(),
        |i: int|
            if forall|j: int| i <= j < b.len() ==> b[j] == 0 {
                0x20u8
            } else {
                b[i]
            },
    )
}

/// A number with the trailing zero bytes of its big-endian form replaced by spaces.
pub open spec fn normalized(n: u32) -> u32 {
    be_unsigned(padded(be_int(n as int, 4))) as u32
}

/// Bytes that do not end in a zero byte are left as they are.
pub proof fn lemma_padded_same(b: Seq<u8>)
    requires
        b.len() > 0,
        b.last() != 0,
    ensures
        padded(b) == b,
{
    assert(padded(b) =~= b);
}

/// A number whose last byte is not zero is left as it is: so are all the tags
/// and names that this library knows.
pub proof fn lemma_normalized_same(n: u32)
    requires
        n % 0x100 != 0,
    ensures
        normalized(n) == n,
{
    let b = be_int(n as int, 4);
    lemma_padded_same(b);
    crate::wire::lemma_unsigned_of_be_int(n as int, 4);
}

/// Calls `four_char_code::FourCharCode::from_array` and hands out the number of the
/// code it returns, read with `FourCharCode::as_u32`. The outside function fails
/// exactly when a byte lies above `0x7f`; otherwise it replaces the trailing zero
/// bytes by spaces and reads the four bytes as a big-endian number.
#[verifier::external_body]
fn checked_code(bytes: [u8; 4]) -> (r: Result<u32, four_char_code::FccConversionError>)
    ensures
        r is Ok <==> (forall|i: int| 0 <= i < 4 ==> bytes@[i] <= 0x7f),
        r is Ok ==> r->Ok_0 == be_unsigned(padded(bytes@)),
{
    match four_char_code::FourCharCode::from_array(bytes) {
        Ok(code) => Ok(code.as_u32()),
        Err(e) => Err(e),
    }
}

/// A four-byte code. Two codes are equal when their bytes are.
#[derive(Clone, Copy, Debug, PartialEq, Eq, Hash, Structural)]
pub struct Code {
    bits: u32,
}

impl Code {
    /// The code as a number: its four bytes read big-endian.
    pub closed spec fn view(self) -> u32 {
        self.bits
    }

    /// The code with the given number.
    pub closed spec fn of(n: u32) -> Self {
        Code { bits: n }
    }

    /// The code with a number has that number.
    pub proof fn lemma_of_view(n: u32)
        ensures
            Self::of(n)@ == n,
    {
    }

    /// A code is the code with its number: two codes with one number are equal.
    pub proof fn lemma_view_of(self)
        ensures
            Self::of(self@) == self,
    {
    }

    /// The code that a number read from the controller stands for: trailing zero
    /// bytes count as spaces.
    pub open spec fn from_raw_spec(raw: u32) -> Self {
        Self::of(normalized(raw))
    }

    /// The code that a number read from the controller stands for: trailing zero
    /// bytes count as spaces.
    #[verifier::when_used_as_spec(from_raw_spec)]
    pub fn from_raw(raw: u32) -> (r: Self)
        ensures
            r == Self::of(normalized(raw)),
            r@ == normalized(raw),
    {
        let b0: u32 = raw / 0x100_0000;
        let b1: u32 = raw / 0x1_0000 % 0x100;
        let b2: u32 = raw / 0x100 % 0x100;
        let b3: u32 = raw % 0x100;
        let ghost b = be_int(raw as int, 4);
        let ghost p = padded(b);
        let bits: u32 = if b3 != 0 {
            assert(p =~= b);
            raw
        } else if b2 != 0 {
            assert(p =~= seq![b[0], b[1], b[2], 0x20u8]);
            raw + 0x20
        } else if b1 != 0 {
            assert(p =~= seq![b[0], b[1], 0x20u8, 0x20u8]);
            raw + 0x2020
        } else if b0 != 0 {
            assert(p =~= seq![b[0], 0x20u8, 0x20u8, 0x20u8]);
            raw + 0x20_2020
        } else {
            assert(p =~= seq![0x20u8, 0x20u8, 0x20u8, 0x20u8]);
            0x2020_2020
        };
        Code { bits }
    }

    /// The code that four bytes spell, by the rules of the `four_char_code` crate:
    /// none above `0x7f`, trailing zero bytes count as spaces.
    pub fn from_array(bytes: [u8; 4]) -> (r: Result<Self, four_char_code::FccConversionError>)
        ensures
            r is Ok <==> (forall|i: int| 0 <= i < 4 ==> bytes@[i] <= 0x7f),
            r is Ok ==> r->Ok_0 == Self::of(be_unsigned(padded(bytes@)) as u32),
            r is Ok ==> r->Ok_0@ == be_unsigned(padded(bytes@)),
    {
        match checked_code(bytes) {
            Ok(bits) => Ok(Code { bits }),
            Err(e) => Err(e),
        }
    }

    /// The code as a number.
    pub fn as_u32(&self) -> (r: u32)
        ensures
            r == self@,
    {
        self.bits
    }

    /// The four bytes of the code.
    pub fn to_bytes(&self) -> (r: [u8; 4])
        ensures
            r@ == be_int(self@ as int, 4),
    {
        let n: u32 = self.bits;
        let r: [u8; 4] = [
            (n / 0x100_0000) as u8,
            (n / 0x1_0000 % 0x100) as u8,
            (n / 0x100 % 0x100) as u8,
            (n % 0x100) as u8,
        ];
        assert(r@ =~= be_int(n as int, 4));
        r
    }
}

impl Default for Code {
    /// Four spaces.
    fn default() -> (r: Self)
        ensures
            r == Self::of(0x2020_2020),
            r@ == 0x2020_2020,
    {
        Code { bits: 0x2020_2020 }
    }
}

} // verus!
