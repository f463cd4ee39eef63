//! What is said to the driver and how its answers are read. The call itself is
//! made elsewhere: here a request is built from plain values, and an answer is
//! turned into a value or an error.

use vstd::prelude::*;
use crate::code::Code;
use crate::error::SMCError;
use crate::types::{FromSMC, IntoSMC};
use crate::val::{DataType, SMCVal, CAPACITY};

verus! {

/// The result of a driver call that succeeded.
pub const IO_RETURN_SUCCESS: i32 = 0;

/// The result of a driver call that the caller has no privilege to make.
pub const IO_RETURN_NOT_PRIVILEGED: i32 = -536_870_207;

/// The status by which the controller says that all went well.
pub const SMC_SUCCESS: u8 = 0;

/// The status by which the controller says that it has no such register.
pub const SMC_KEY_NOT_FOUND: u8 = 132;

/// The name of the register that says whether a disk is in the optical drive.
pub const KEY_OPTICAL_DISK: u32 = 0x4d53_4449;

/// The operations that the controller offers.
#[derive(Clone, Copy, Debug, PartialEq, Eq, Structural)]
#[non_exhaustive]
pub enum SMCSelector {
    Unknown,
    ReadKey,
    WriteKey,
    GetKeyFromIndex,
    GetKeyInfo,
}

impl SMCSelector {
    /// The number by which the driver knows the operation.
    pub open spec fn spec_number(self) -> u8 {
        match self {
            SMCSelector::Unknown => 0,
            SMCSelector::ReadKey => 5,
            SMCSelector::WriteKey => 6,
            SMCSelector::GetKeyFromIndex => 8,
            SMCSelector::GetKeyInfo => 9,
        }
    }

    /// The operation that the driver knows by a number: `Unknown` for a number
    /// that stands for none of the others.
    pub open spec fn spec_from_number(n: u8) -> Self {
        if n == 5 {
            SMCSelector::ReadKey
        } else if n == 6 {
            SMCSelector::WriteKey
        } else if n == 8 {
            SMCSelector::GetKeyFromIndex
        } else if n == 9 {
            SMCSelector::GetKeyInfo
        } else {
            SMCSelector::Unknown
        }
    }

    /// The operation that the driver knows by a number.
    pub fn from_number(n: u8) -> (r: Self)
        ensures
            r == Self::spec_from_number(n),
            r != SMCSelector::Unknown ==> r.spec_number() == n,
    {
        match n {
            5 => SMCSelector::ReadKey,
            6 => SMCSelector::WriteKey,
            8 => SMCSelector::GetKeyFromIndex,
            9 => SMCSelector::GetKeyInfo,
            _ => SMCSelector::Unknown,
        }
    }

    /// The number by which the driver knows the operation.
    pub fn number(self) -> (r: u8)
        ensures
            r == self.spec_number(),
            Self::spec_from_number(r) == self,
    {
        match self {
            SMCSelector::Unknown => 0,
            SMCSelector::ReadKey => 5,
            SMCSelector::WriteKey => 6,
            SMCSelector::GetKeyFromIndex => 8,
            SMCSelector::GetKeyInfo => 9,
        }
    }
}

impl Default for SMCSelector {
    fn default() -> (r: Self)
        ensures
            r == SMCSelector::Unknown,
    {
        SMCSelector::Unknown
    }
}

/// What the controller says of a register: the number of its bytes, the tag of
/// its type as the controller spells it, and its attributes.
#[derive(Clone, Copy, Debug, PartialEq, Eq, Structural)]
pub struct SMCKeyInfoData {
    pub data_size: u32,
    pub data_type: u32,
    pub data_attributes: u8,
}

/// The fields of one driver call that the library fills or reads. A request and
/// its answer have the same shape.
#[derive(Clone, Copy, Debug)]
pub struct SMCParam {
    pub key: u32,
    pub key_info: SMCKeyInfoData,
    pub result: u8,
    pub status: u8,
    pub selector: SMCSelector,
    pub data32: u32,
    pub bytes: [u8; 32],
}

/// Thirty-two zero bytes.
pub open spec fn zeros() -> Seq<u8> {
    Seq::new(32, |i: int| 0u8)
}

impl SMCParam {
    /// Whether this is the request for the operation `selector` on the register
    /// with the number `key`, with the given size, index and bytes: every other
    /// field is zero, but for the tag of the type, which is four spaces.
    pub open spec fn asks(
        self,
        selector: SMCSelector,
        key: u32,
        data_size: u32,
        data32: u32,
        bytes: Seq<u8>,
    ) -> bool {
        &&& self.key == key
        &&& self.key_info == (SMCKeyInfoData {
            data_size,
            data_type: 0x2020_2020,
            data_attributes: 0,
        })
        &&& self.result == 0
        &&& self.status == 0
        &&& self.selector == selector
        &&& self.data32 == data32
        &&& self.bytes@ == bytes
    }
}

impl Default for SMCParam {
    /// The request in which nothing is asked, of the register whose name is four
    /// spaces.
    fn default() -> (r: Self)
        ensures
            r.asks(SMCSelector::Unknown, 0x2020_2020, 0, 0, zeros()),
    {
        let r = SMCParam {
            key: 0x2020_2020,
            key_info: SMCKeyInfoData { data_size: 0, data_type: 0x2020_2020, data_attributes: 0 },
            result: 0,
            status: 0,
            selector: SMCSelector::Unknown,
            data32: 0,
            bytes: [0u8; 32],
        };
        assert(r.bytes@ =~= zeros());
        r
    }
}

/// A register with what the controller has declared of it.
#[derive(Clone, Copy, Debug, PartialEq, Eq, Structural)]
pub struct SMCKey {
    pub code: Code,
    pub info: DataType,
}

/// What a driver call comes to, by its result and by the status in its answer:
/// the answer where both say success, and otherwise the error that they name.
pub open spec fn call_outcome(key: Code, io_result: i32, output: SMCParam) -> Result<
    SMCParam,
    SMCError,
> {
    if io_result == IO_RETURN_SUCCESS && output.result == SMC_SUCCESS {
        Ok(output)
    } else if io_result == IO_RETURN_SUCCESS && output.result == SMC_KEY_NOT_FOUND {
        Err(SMCError::KeyNotFound(key))
    } else if io_result == IO_RETURN_NOT_PRIVILEGED {
        Err(SMCError::NotPrivileged)
    } else {
        Err(SMCError::Unknown(io_result, output.result))
    }
}

/// Reads the outcome of a driver call that was made for the register `key`.
pub fn call_driver(key: Code, io_result: i32, output: SMCParam) -> (r: Result<SMCParam, SMCError>)
    ensures
        r == call_outcome(key, io_result, output),
{
    if io_result == IO_RETURN_SUCCESS && output.result == SMC_SUCCESS {
        Ok(output)
    } else if io_result == IO_RETURN_SUCCESS && output.result == SMC_KEY_NOT_FOUND {
        Err(SMCError::KeyNotFound(key))
    } else if io_result == IO_RETURN_NOT_PRIVILEGED {
        Err(SMCError::NotPrivileged)
    } else {
        Err(SMCError::Unknown(io_result, output.result))
    }
}

/// The request for what the controller declares of the register `key`.
pub fn key_info_request(key: Code) -> (r: SMCParam)
    ensures
        r.asks(SMCSelector::GetKeyInfo, key@, 0, 0, zeros()),
{
    let mut r = SMCParam::default();
    r.key = key.as_u32();
    r.selector = SMCSelector::GetKeyInfo;
    r
}

/// The declaration that the answer to such a request holds. The tag of the type
/// is read with its trailing zero bytes as spaces.
pub fn key_info(output: &SMCParam) -> (r: DataType)
    ensures
        r.id == Code::from_raw_spec(output.key_info.data_type),
        r.size == output.key_info.data_size,
{
    DataType { id: Code::from_raw(output.key_info.data_type), size: output.key_info.data_size }
}

/// The request for the name of the register at `index` of the table.
pub fn get_key_request(index: u32) -> (r: SMCParam)
    ensures
        r.asks(SMCSelector::GetKeyFromIndex, 0x2020_2020, 0, index, zeros()),
{
    let mut r = SMCParam::default();
    r.selector = SMCSelector::GetKeyFromIndex;
    r.data32 = index;
    r
}

/// The name that the answer to such a request holds, read with its trailing zero
/// bytes as spaces.
pub fn get_key(output: &SMCParam) -> (r: Code)
    ensures
        r == Code::from_raw_spec(output.key),
{
    Code::from_raw(output.key)
}

/// The request for the bytes of a register.
pub fn read_request(key: SMCKey) -> (r: SMCParam)
    ensures
        r.asks(SMCSelector::ReadKey, key.code@, key.info.size, 0, zeros()),
{
    let mut r = SMCParam::default();
    r.key = key.code.as_u32();
    r.selector = SMCSelector::ReadKey;
    r.key_info.data_size = key.info.size;
    r
}

/// The buffer that the answer to a read of a register holds, by the declaration
/// of the register. A register that declares more bytes than a buffer can hold
/// gives the buffer of what arrived, which is the capacity.
pub open spec fn read_buffer(info: DataType, raw: Seq<u8>, val: SMCVal) -> bool {
    &&& val.spec_ty() == info.id
    &&& val.spec_len() == (if info.size <= CAPACITY {
        info.size as nat
    } else {
        CAPACITY as nat
    })
    &&& val.raw() == raw
}

/// What the answer to a read of a register comes to for a caller who asked for
/// a value of type `T`: the value that the buffer decodes to, or the error that
/// holds the buffer. A register that declares more bytes than a buffer can hold
/// is never decoded.
pub open spec fn read_outcome<T: FromSMC>(info: DataType, val: SMCVal, r: Result<T, SMCError>) -> bool {
    if info.size <= CAPACITY && T::decoding(val) is Some {
        r == Ok::<T, SMCError>(T::decoding(val)->Some_0)
    } else {
        r == Err::<T, SMCError>(SMCError::TryFrom(val))
    }
}

/// Reads the answer to a read of the register `key` as a value of type `T`.
pub fn read_data<T: FromSMC>(key: SMCKey, output: &SMCParam) -> (r: Result<T, SMCError>)
    ensures
        exists|val: SMCVal|
            read_buffer(key.info, output.bytes@, val) && read_outcome::<T>(key.info, val, r),
{
    let size: usize = if key.info.size <= CAPACITY as u32 {
        key.info.size as usize
    } else {
        CAPACITY
    };
    let val = SMCVal::new(key.info.id, size, output.bytes).unwrap();
    if key.info.size > CAPACITY as u32 {
        let r = Err(SMCError::TryFrom(val));
        assert(read_buffer(key.info, output.bytes@, val) && read_outcome::<T>(key.info, val, r));
        return r;
    }
    let r = match T::from_smc(val) {
        Some(v) => Ok(v),
        None => Err(SMCError::TryFrom(val)),
    };
    assert(read_buffer(key.info, output.bytes@, val) && read_outcome::<T>(key.info, val, r));
    r
}

/// The request that writes `val` into the register `key`, or the error that
/// says that the value cannot be written in the wire type of the register. The
/// bytes behind the value are zero.
pub fn write_data<T: IntoSMC>(key: SMCKey, val: T) -> (r: Result<SMCParam, SMCError>)
    ensures
        match val.encoding(key.info.id, key.info.size as nat) {
            Some(front) if key.info.size <= CAPACITY => {
                &&& r is Ok
                &&& r->Ok_0.asks(
                    SMCSelector::WriteKey,
                    key.code@,
                    key.info.size,
                    0,
                    front + zeros().skip(front.len() as int),
                )
            },
            _ => r == Err::<SMCParam, SMCError>(SMCError::TryInto),
        },
{
    if key.info.size > CAPACITY as u32 {
        return Err(SMCError::TryInto);
    }
    let blank: [u8; 32] = [0u8; 32];
    assert(blank@ =~= zeros());
    let mut res = SMCVal::new(key.info.id, key.info.size as usize, blank).unwrap();
    if val.into_smc(&mut res).is_none() {
        return Err(SMCError::TryInto);
    }
    let mut r = SMCParam::default();
    r.key = key.code.as_u32();
    r.selector = SMCSelector::WriteKey;
    r.key_info.data_size = key.info.size;
    r.bytes = res.into_raw();
    Ok(r)
}

} // verus!
