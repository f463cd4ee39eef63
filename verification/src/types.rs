//! The codec: conversions between a register buffer and the scalar types, by a
//! closed table of wire types for each scalar type.

use vstd::prelude::*;
use crate::bounded::{OneDigit, UMax10};
use crate::code::{
    Code, TYPE_FLAG, TYPE_FLT, TYPE_FPE2, TYPE_I16, TYPE_I32, TYPE_I8, TYPE_SP78, TYPE_U16,
    TYPE_U32, TYPE_U8,
};
use crate::float::F32;
use crate::util::{bool_encoding, f32_encoding, int_encoding, wrote};
use crate::val::SMCVal;
use crate::wire::{
    be_int, be_signed, be_unsigned, lemma_int_round_trip, lemma_unsigned_of_be_int, reads_within,
    wire_int,
};

verus! {

/// A value that can be written into a register buffer.
pub trait IntoSMC: Sized {
    /// The bytes that stand for the value in a buffer declared as `ty` with `len`
    /// bytes, or `None` where the value cannot be written into such a buffer.
    spec fn encoding(self, ty: Code, len: nat) -> Option<Seq<u8>>;

    /// Writes the value over the first bytes of the buffer, or returns `None` and
    /// leaves the buffer as it was.
    fn into_smc(self, param: &mut SMCVal) -> (r: Option<()>)
        ensures
            wrote(
                *old(param),
                *final(param),
                r,
                self.encoding(old(param).spec_ty(), old(param).spec_len()),
            ),
    ;
}

/// A value that can be read from a register buffer.
pub trait FromSMC: Sized {
    /// The value that the buffer holds, or `None` where its type and length are
    /// not among those that the target accepts.
    spec fn decoding(param: SMCVal) -> Option<Self>;

    /// Reads the value, without ever failing in another way than by `None`.
    fn from_smc(param: SMCVal) -> (r: Option<Self>)
        ensures
            r == Self::decoding(param),
    ;
}

/// The integer that a buffer holds, where it can be read as an integer between
/// `lo` and `hi` whatever its bytes are.
pub open spec fn int_decoding(param: SMCVal, lo: int, hi: int) -> Option<int> {
    if reads_within(param.spec_ty()@, param.spec_len(), lo, hi) {
        Some(wire_int(param.spec_ty()@, param.bytes()))
    } else {
        None
    }
}

/// The bytes of the buffer read as a non-negative number.
fn unsigned_of(param: &SMCVal) -> (r: u32)
    requires
        param.spec_len() == 1 || param.spec_len() == 2 || param.spec_len() == 4,
    ensures
        r == be_unsigned(param.bytes()),
{
    let d = param.data();
    if d.len() == 1 {
        d[0] as u32
    } else if d.len() == 2 {
        (d[0] as u32) * 0x100 + d[1] as u32
    } else {
        (d[0] as u32) * 0x100_0000 + (d[1] as u32) * 0x1_0000 + (d[2] as u32) * 0x100
            + d[3] as u32
    }
}

/// The bytes of the buffer read as a number in two's complement.
fn signed_of(param: &SMCVal) -> (r: i32)
    requires
        param.spec_len() == 1 || param.spec_len() == 2 || param.spec_len() == 4,
    ensures
        r == be_signed(param.bytes()),
{
    let u: i64 = unsigned_of(param) as i64;
    let m: i64 = if param.len() == 1 {
        0x100
    } else if param.len() == 2 {
        0x1_0000
    } else {
        0x1_0000_0000
    };
    if 2 * u >= m {
        (u - m) as i32
    } else {
        u as i32
    }
}

impl FromSMC for SMCVal {
    open spec fn decoding(param: SMCVal) -> Option<Self> {
        Some(param)
    }

    fn from_smc(param: SMCVal) -> (r: Option<Self>) {
        Some(param)
    }
}

impl FromSMC for bool {
    open spec fn decoding(param: SMCVal) -> Option<Self> {
        if param.spec_ty()@ == TYPE_FLAG && param.spec_len() == 1 {
            Some(param.bytes()[0] != 0)
        } else {
            None
        }
    }

    fn from_smc(param: SMCVal) -> (r: Option<Self>) {
        if param.ty().as_u32() != TYPE_FLAG || param.len() != 1 {
            return None;
        }
        Some(param.data()[0] != 0)
    }
}

impl FromSMC for u8 {
    open spec fn decoding(param: SMCVal) -> Option<Self> {
        match int_decoding(param, u8::MIN as int, u8::MAX as int) {
            Some(v) => Some(v as u8),
            None => None,
        }
    }

    fn from_smc(param: SMCVal) -> (r: Option<Self>) {
        if param.ty().as_u32() != TYPE_U8 || param.len() != 1 {
            return None;
        }
        Some(param.data()[0])
    }
}

impl FromSMC for i8 {
    open spec fn decoding(param: SMCVal) -> Option<Self> {
        match int_decoding(param, i8::MIN as int, i8::MAX as int) {
            Some(v) => Some(v as i8),
            None => None,
        }
    }

    fn from_smc(param: SMCVal) -> (r: Option<Self>) {
        if param.ty().as_u32() != TYPE_I8 || param.len() != 1 {
            return None;
        }
        Some(signed_of(&param) as i8)
    }
}

impl FromSMC for u16 {
    open spec fn decoding(param: SMCVal) -> Option<Self> {
        match int_decoding(param, u16::MIN as int, u16::MAX as int) {
            Some(v) => Some(v as u16),
            None => None,
        }
    }

    fn from_smc(param: SMCVal) -> (r: Option<Self>) {
        let ty: u32 = param.ty().as_u32();
        let len: usize = param.len();
        if ty == TYPE_U8 && len == 1 {
            Some(unsigned_of(&param) as u16)
        } else if ty == TYPE_U16 && len == 2 {
            Some(unsigned_of(&param) as u16)
        } else {
            None
        }
    }
}

impl FromSMC for i16 {
    open spec fn decoding(param: SMCVal) -> Option<Self> {
        match int_decoding(param, i16::MIN as int, i16::MAX as int) {
            Some(v) => Some(v as i16),
            None => None,
        }
    }

    fn from_smc(param: SMCVal) -> (r: Option<Self>) {
        let ty: u32 = param.ty().as_u32();
        let len: usize = param.len();
        if ty == TYPE_U8 && len == 1 {
            Some(unsigned_of(&param) as i16)
        } else if ty == TYPE_I8 && len == 1 {
            Some(signed_of(&param) as i16)
        } else if ty == TYPE_I16 && len == 2 {
            Some(signed_of(&param) as i16)
        } else {
            None
        }
    }
}

impl FromSMC for u32 {
    open spec fn decoding(param: SMCVal) -> Option<Self> {
        match int_decoding(param, u32::MIN as int, u32::MAX as int) {
            Some(v) => Some(v as u32),
            None => None,
        }
    }

    fn from_smc(param: SMCVal) -> (r: Option<Self>) {
        let ty: u32 = param.ty().as_u32();
        let len: usize = param.len();
        if ty == TYPE_U8 && len == 1 {
            Some(unsigned_of(&param))
        } else if ty == TYPE_U16 && len == 2 {
            Some(unsigned_of(&param))
        } else if ty == TYPE_U32 && len == 4 {
            Some(unsigned_of(&param))
        } else {
            None
        }
    }
}

impl FromSMC for i32 {
    open spec fn decoding(param: SMCVal) -> Option<Self> {
        match int_decoding(param, i32::MIN as int, i32::MAX as int) {
            Some(v) => Some(v as i32),
            None => None,
        }
    }

    fn from_smc(param: SMCVal) -> (r: Option<Self>) {
        let ty: u32 = param.ty().as_u32();
        let len: usize = param.len();
        if ty == TYPE_U8 && len == 1 {
            Some(unsigned_of(&param) as i32)
        } else if ty == TYPE_I8 && len == 1 {
            Some(signed_of(&param))
        } else if ty == TYPE_U16 && len == 2 {
            Some(unsigned_of(&param) as i32)
        } else if ty == TYPE_I16 && len == 2 {
            Some(signed_of(&param))
        } else if ty == TYPE_I32 && len == 4 {
            Some(signed_of(&param))
        } else {
            None
        }
    }
}

impl FromSMC for i64 {
    open spec fn decoding(param: SMCVal) -> Option<Self> {
        match int_decoding(param, i64::MIN as int, i64::MAX as int) {
            Some(v) => Some(v as i64),
            None => None,
        }
    }

    fn from_smc(param: SMCVal) -> (r: Option<Self>) {
        let ty: u32 = param.ty().as_u32();
        let len: usize = param.len();
        if ty == TYPE_U8 && len == 1 {
            Some(unsigned_of(&param) as i64)
        } else if ty == TYPE_I8 && len == 1 {
            Some(signed_of(&param) as i64)
        } else if ty == TYPE_U16 && len == 2 {
            Some(unsigned_of(&param) as i64)
        } else if ty == TYPE_I16 && len == 2 {
            Some(signed_of(&param) as i64)
        } else if ty == TYPE_U32 && len == 4 {
            Some(unsigned_of(&param) as i64)
        } else if ty == TYPE_I32 && len == 4 {
            Some(signed_of(&param) as i64)
        } else {
            None
        }
    }
}

impl FromSMC for F32 {
    open spec fn decoding(param: SMCVal) -> Option<Self> {
        if param.spec_ty()@ == TYPE_FPE2 && param.spec_len() == 2 {
            Some(F32::fpe2_single(be_unsigned(param.bytes()) as u16))
        } else if param.spec_ty()@ == TYPE_SP78 && param.spec_len() == 2 {
            Some(F32::sp78_single(be_signed(param.bytes()) as i16))
        } else if param.spec_ty()@ == TYPE_FLT && param.spec_len() == 4 {
            Some(F32 { bits: be_unsigned(param.bytes()) as u32 })
        } else {
            None
        }
    }

    fn from_smc(param: SMCVal) -> (r: Option<Self>) {
        let ty: u32 = param.ty().as_u32();
        let len: usize = param.len();
        if ty == TYPE_FPE2 && len == 2 {
            Some(F32::from_fpe2(unsigned_of(&param) as u16))
        } else if ty == TYPE_SP78 && len == 2 {
            Some(F32::from_sp78(signed_of(&param) as i16))
        } else if ty == TYPE_FLT && len == 4 {
            Some(F32::from_bits(unsigned_of(&param)))
        } else {
            None
        }
    }
}

impl FromSMC for UMax10 {
    open spec fn decoding(param: SMCVal) -> Option<Self> {
        match u32::decoding(param) {
            Some(v) if v <= 10 => Some(UMax10::of(v as int)),
            _ => None,
        }
    }

    fn from_smc(param: SMCVal) -> (r: Option<Self>) {
        match u32::from_smc(param) {
            Some(v) => match UMax10::try_from(v) {
                Ok(n) => Some(n),
                Err(_) => None,
            },
            None => None,
        }
    }
}

impl FromSMC for OneDigit {
    open spec fn decoding(param: SMCVal) -> Option<Self> {
        match u32::decoding(param) {
            Some(v) if v <= 9 => Some(OneDigit::of(v as int)),
            _ => None,
        }
    }

    fn from_smc(param: SMCVal) -> (r: Option<Self>) {
        match u32::from_smc(param) {
            Some(v) => match OneDigit::try_from(v) {
                Ok(n) => Some(n),
                Err(_) => None,
            },
            None => None,
        }
    }
}

/// A buffer over whose first bytes as many bytes as are meaningful were written
/// holds those bytes.
proof fn lemma_stored_bytes(before: SMCVal, after: SMCVal, front: Seq<u8>)
    requires
        before.wf(),
        after.stores(before, front),
        front.len() == before.spec_len(),
    ensures
        after.wf(),
        after.bytes() == front,
{
    assert(after.bytes() =~= front);
}

/// An integer that a writer has stored is read back as itself by every reader
/// that accepts the buffer, whatever range the writer and the reader are for.
pub proof fn lemma_int_round_trip_through_buffer(
    before: SMCVal,
    after: SMCVal,
    v: int,
    written: (int, int),
    read: (int, int),
)
    requires
        before.wf(),
        written.0 <= v <= written.1,
        int_encoding(v, written.0, written.1, before.spec_ty()@, before.spec_len()) is Some,
        after.stores(
            before,
            int_encoding(v, written.0, written.1, before.spec_ty()@, before.spec_len())->Some_0,
        ),
        reads_within(after.spec_ty()@, after.spec_len(), read.0, read.1),
    ensures
        int_decoding(after, read.0, read.1) == Some(v),
        read.0 <= v <= read.1,
{
    let front = be_int(v, before.spec_len());
    lemma_int_round_trip(before.spec_ty()@, before.spec_len(), v);
    lemma_stored_bytes(before, after, front);
}

/// A flag that `write_bool` has stored is read back as itself.
pub proof fn lemma_bool_round_trip(before: SMCVal, after: SMCVal, n: bool)
    requires
        before.wf(),
        bool_encoding(n, before.spec_ty()@, before.spec_len()) is Some,
        after.stores(before, bool_encoding(n, before.spec_ty()@, before.spec_len())->Some_0),
    ensures
        bool::decoding(after) == Some(n),
{
    lemma_stored_bytes(
        before,
        after,
        bool_encoding(n, before.spec_ty()@, before.spec_len())->Some_0,
    );
}

/// What a single that `write_f32` has stored is read back as: itself from a
/// buffer of the type of singles, and from a buffer of a fixed-point type the
/// single of its fixed-point form, which is the value rounded to the format.
pub open spec fn quantized(n: F32, ty: u32) -> F32 {
    if ty == TYPE_FPE2 {
        F32::fpe2_single(n.fpe2_of() as u16)
    } else if ty == TYPE_SP78 {
        F32::sp78_single(n.sp78_of() as i16)
    } else {
        n
    }
}

/// A single that `write_f32` has stored is read back as the single of its
/// fixed-point form, and as itself where the buffer holds singles.
pub proof fn lemma_f32_round_trip(before: SMCVal, after: SMCVal, n: F32)
    requires
        before.wf(),
        f32_encoding(n, before.spec_ty()@, before.spec_len()) is Some,
        after.stores(before, f32_encoding(n, before.spec_ty()@, before.spec_len())->Some_0),
    ensures
        F32::decoding(after) == Some(quantized(n, before.spec_ty()@)),
{
    let ty = before.spec_ty()@;
    let front = f32_encoding(n, ty, before.spec_len())->Some_0;
    n.lemma_fixed_point_ranges();
    if ty == TYPE_FPE2 {
        lemma_unsigned_of_be_int(n.fpe2_of(), 2);
    } else if ty == TYPE_SP78 {
        lemma_int_round_trip(crate::code::TYPE_I16, 2, n.sp78_of());
    } else {
        lemma_unsigned_of_be_int(n.bits as int, 4);
    }
    lemma_stored_bytes(before, after, front);
}

} // verus!
