//! Writers of scalar values into a register buffer, each for the wire types that
//! can hold every value of the scalar's type.

use vstd::prelude::*;
use crate::code::{
    TYPE_FLAG, TYPE_FLT, TYPE_FPE2, TYPE_I16, TYPE_I32, TYPE_I8, TYPE_SP78, TYPE_U16, TYPE_U32,
    TYPE_U8,
};
use crate::float::F32;
use crate::val::SMCVal;
use crate::wire::{be_int, lemma_be_int_wraps, takes_all};

verus! {

/// What a writer did: where `front` is `Some`, it returned `Some` and wrote those
/// bytes over the first bytes of the buffer; where it is `None`, it returned
/// `None` and left the buffer as it was.
pub open spec fn wrote(before: SMCVal, after: SMCVal, r: Option<()>, front: Option<Seq<u8>>) -> bool {
    match front {
        Some(b) => r is Some && after.stores(before, b),
        None => r is None && after == before,
    }
}

/// The bytes that stand for the integer `v`, taken from a type whose values range
/// from `lo` to `hi`, in a buffer declared as `ty` with `len` bytes: `None` unless
/// the buffer's type holds all of that range.
pub open spec fn int_encoding(v: int, lo: int, hi: int, ty: u32, len: nat) -> Option<Seq<u8>> {
    if takes_all(ty, len, lo, hi) {
        Some(be_int(v, len))
    } else {
        None
    }
}

/// The bytes that stand for a flag in a buffer declared as `ty` with `len` bytes.
pub open spec fn bool_encoding(n: bool, ty: u32, len: nat) -> Option<Seq<u8>> {
    if ty == TYPE_FLAG && len == 1 {
        Some(seq![if n { 1u8 } else { 0u8 }])
    } else {
        None
    }
}

/// The bytes that stand for a single in a buffer declared as `ty` with `len`
/// bytes: its fixed-point form in a buffer of a fixed-point type, its bits in a
/// buffer of the type of singles. The unsigned fixed-point type takes no single
/// whose sign bit is set.
pub open spec fn f32_encoding(n: F32, ty: u32, len: nat) -> Option<Seq<u8>> {
    if ty == TYPE_FPE2 && len == 2 {
        if n.sign() {
            None
        } else {
            Some(be_int(n.fpe2_of(), 2))
        }
    } else if ty == TYPE_SP78 && len == 2 {
        Some(be_int(n.sp78_of(), 2))
    } else if ty == TYPE_FLT && len == 4 {
        Some(be_int(n.bits as int, 4))
    } else {
        None
    }
}

fn put1(val: &mut SMCVal, b0: u8)
    requires
        old(val).spec_len() >= 1,
    ensures
        final(val).stores(*old(val), seq![b0]),
{
    let ghost before = *val;
    let out = val.data_mut();
    out[0] = b0;
    proof {
        assert(val.raw() =~= seq![b0] + before.raw().skip(1));
    }
}

fn put2(val: &mut SMCVal, b0: u8, b1: u8)
    requires
        old(val).spec_len() >= 2,
    ensures
        final(val).stores(*old(val), seq![b0, b1]),
{
    let ghost before = *val;
    let out = val.data_mut();
    out[0] = b0;
    out[1] = b1;
    proof {
        assert(val.raw() =~= seq![b0, b1] + before.raw().skip(2));
    }
}

fn put4(val: &mut SMCVal, n: u32)
    requires
        old(val).spec_len() >= 4,
    ensures
        final(val).stores(*old(val), be_int(n as int, 4)),
{
    let ghost before = *val;
    let out = val.data_mut();
    out[0] = (n / 0x100_0000) as u8;
    out[1] = (n / 0x1_0000 % 0x100) as u8;
    out[2] = (n / 0x100 % 0x100) as u8;
    out[3] = (n % 0x100) as u8;
    proof {
        assert(val.raw() =~= be_int(n as int, 4) + before.raw().skip(4));
    }
}

/// Stores a single in a buffer of a fixed-point type or of the type of singles.
pub fn write_f32(n: F32, val: &mut SMCVal) -> (r: Option<()>)
    ensures
        wrote(*old(val), *final(val), r, f32_encoding(n, old(val).spec_ty()@, old(val).spec_len())),
{
    let ty: u32 = val.ty().as_u32();
    let len: usize = val.len();
    if ty == TYPE_FPE2 && len == 2 {
        if n.is_sign_negative() {
            return None;
        }
        let q: u16 = n.to_fpe2();
        put2(val, (q / 0x100) as u8, (q % 0x100) as u8);
        assert(be_int(q as int, 2) =~= seq![(q / 0x100) as u8, (q % 0x100) as u8]);
        Some(())
    } else if ty == TYPE_SP78 && len == 2 {
        let q: i16 = n.to_sp78();
        let u: u16 = if q >= 0 {
            q as u16
        } else {
            (q as i32 + 0x1_0000) as u16
        };
        put2(val, (u / 0x100) as u8, (u % 0x100) as u8);
        assert(be_int(q as int, 2) =~= seq![(u / 0x100) as u8, (u % 0x100) as u8]);
        Some(())
    } else if ty == TYPE_FLT && len == 4 {
        put4(val, n.to_bits());
        Some(())
    } else {
        None
    }
}

/// Stores an unsigned 32-bit integer in a buffer of that type.
pub fn write_u32(n: u32, val: &mut SMCVal) -> (r: Option<()>)
    ensures
        wrote(
            *old(val),
            *final(val),
            r,
            int_encoding(n as int, 0, u32::MAX as int, old(val).spec_ty()@, old(val).spec_len()),
        ),
{
    if val.ty().as_u32() == TYPE_U32 && val.len() == 4 {
        put4(val, n);
        Some(())
    } else {
        None
    }
}

/// Stores a signed 32-bit integer in a buffer of that type.
pub fn write_i32(n: i32, val: &mut SMCVal) -> (r: Option<()>)
    ensures
        wrote(
            *old(val),
            *final(val),
            r,
            int_encoding(n as int, i32::MIN as int, i32::MAX as int, old(val).spec_ty()@, old(val).spec_len()),
        ),
{
    if val.ty().as_u32() == TYPE_I32 && val.len() == 4 {
        let u: u32 = if n >= 0 {
            n as u32
        } else {
            (n as i64 + 0x1_0000_0000) as u32
        };
        proof {
            if n < 0 {
                lemma_be_int_wraps(n as int, 4, 1);
            }
        }
        put4(val, u);
        Some(())
    } else {
        None
    }
}

/// Stores an unsigned 16-bit integer in a buffer of that type or of a 32-bit
/// integer type.
pub fn write_u16(n: u16, val: &mut SMCVal) -> (r: Option<()>)
    ensures
        wrote(
            *old(val),
            *final(val),
            r,
            int_encoding(n as int, 0, u16::MAX as int, old(val).spec_ty()@, old(val).spec_len()),
        ),
{
    let ty: u32 = val.ty().as_u32();
    let len: usize = val.len();
    if ty == TYPE_U16 && len == 2 {
        put2(val, (n / 0x100) as u8, (n % 0x100) as u8);
        assert(be_int(n as int, 2) =~= seq![(n / 0x100) as u8, (n % 0x100) as u8]);
        Some(())
    } else if ty == TYPE_I32 && len == 4 {
        write_i32(n as i32, val)
    } else if ty == TYPE_U32 && len == 4 {
        write_u32(n as u32, val)
    } else {
        None
    }
}

/// Stores a signed 16-bit integer in a buffer of that type or of the signed
/// 32-bit integer type.
pub fn write_i16(n: i16, val: &mut SMCVal) -> (r: Option<()>)
    ensures
        wrote(
            *old(val),
            *final(val),
            r,
            int_encoding(n as int, i16::MIN as int, i16::MAX as int, old(val).spec_ty()@, old(val).spec_len()),
        ),
{
    let ty: u32 = val.ty().as_u32();
    let len: usize = val.len();
    if ty == TYPE_I16 && len == 2 {
        let u: u16 = if n >= 0 {
            n as u16
        } else {
            (n as i32 + 0x1_0000) as u16
        };
        put2(val, (u / 0x100) as u8, (u % 0x100) as u8);
        assert(be_int(n as int, 2) =~= seq![(u / 0x100) as u8, (u % 0x100) as u8]);
        Some(())
    } else if ty == TYPE_I32 && len == 4 {
        write_i32(n as i32, val)
    } else {
        None
    }
}

/// Stores an unsigned byte in a buffer of that type or of a wider integer type.
pub fn write_u8(n: u8, val: &mut SMCVal) -> (r: Option<()>)
    ensures
        wrote(
            *old(val),
            *final(val),
            r,
            int_encoding(n as int, 0, u8::MAX as int, old(val).spec_ty()@, old(val).spec_len()),
        ),
{
    let ty: u32 = val.ty().as_u32();
    let len: usize = val.len();
    if ty == TYPE_U8 && len == 1 {
        put1(val, n);
        assert(be_int(n as int, 1) =~= seq![n]);
        Some(())
    } else if ty == TYPE_I16 && len == 2 {
        write_i16(n as i16, val)
    } else {
        write_u16(n as u16, val)
    }
}

/// Stores a signed byte in a buffer of that type or of a wider signed type.
pub fn write_i8(n: i8, val: &mut SMCVal) -> (r: Option<()>)
    ensures
        wrote(
            *old(val),
            *final(val),
            r,
            int_encoding(n as int, i8::MIN as int, i8::MAX as int, old(val).spec_ty()@, old(val).spec_len()),
        ),
{
    let ty: u32 = val.ty().as_u32();
    let len: usize = val.len();
    if ty == TYPE_I8 && len == 1 {
        let u: u8 = if n >= 0 {
            n as u8
        } else {
            (n as i16 + 0x100) as u8
        };
        put1(val, u);
        assert(be_int(n as int, 1) =~= seq![u]);
        Some(())
    } else {
        write_i16(n as i16, val)
    }
}

/// Stores a flag as one byte, 1 for `true`, in a buffer of the flag type.
pub fn write_bool(n: bool, val: &mut SMCVal) -> (r: Option<()>)
    ensures
        wrote(
            *old(val),
            *final(val),
            r,
            bool_encoding(n, old(val).spec_ty()@, old(val).spec_len()),
        ),
{
    if val.ty().as_u32() == TYPE_FLAG && val.len() == 1 {
        put1(val, if n { 1 } else { 0 });
        Some(())
    } else {
        None
    }
}

} // verus!
