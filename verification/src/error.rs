//! The errors of the library.

use vstd::prelude::*;
use vstd::std_specs::convert::FromSpecImpl;
use crate::code::Code;
use crate::text::{decimal, push_decimal, push_quoted, quoted};
use crate::wire::be_int;
use crate::val::SMCVal;

verus! {

/// What can go wrong between a caller and the controller.
#[derive(Debug)]
pub enum SMCError {
    /// No driver answers on this machine.
    DriverNotFound,
    /// The driver was found, but the connection could not be opened.
    Open,
    /// Four bytes do not make the name of a register.
    InvalidKey(four_char_code::FccConversionError),
    /// The controller has no register of this name.
    KeyNotFound(Code),
    /// The caller lacks the privilege that the operation needs.
    NotPrivileged,
    /// The buffer read from a register cannot be read as the type asked for.
    TryFrom(SMCVal),
    /// The value cannot be written in the wire type of the register.
    TryInto,
    /// The value lies outside the range in which the write is safe.
    UnsafeValue,
    /// The driver failed with this result and this status of the controller.
    Unknown(i32, u8),
    /// A query of the environment failed with this error number.
    Sysctl(i32),
}

impl From<four_char_code::FccConversionError> for SMCError {
    fn from(value: four_char_code::FccConversionError) -> (r: Self) {
        SMCError::InvalidKey(value)
    }
}

impl FromSpecImpl<four_char_code::FccConversionError> for SMCError {
    open spec fn obeys_from_spec() -> bool {
        true
    }

    open spec fn from_spec(value: four_char_code::FccConversionError) -> Self {
        SMCError::InvalidKey(value)
    }
}

/// Calls `four_char_code::FccConversionError::description` and copies the text
/// that it returns. Nothing is claimed of the text.
#[verifier::external_body]
fn conversion_text(e: &four_char_code::FccConversionError) -> (r: String) {
    e.description().to_owned()
}

impl SMCError {
    /// What the error says to a person. Of four bytes that are no name of a
    /// register, the text is that of the crate that refused them, and is not
    /// fixed here.
    pub open spec fn text(self) -> Option<Seq<char>> {
        match self {
            SMCError::DriverNotFound => Some("Driver not found."@),
            SMCError::Open => Some("Failed to open driver."@),
            SMCError::InvalidKey(_) => None,
            SMCError::KeyNotFound(code) => Some(
                "Key "@ + quoted(be_int(code@ as int, 4)) + " not found."@,
            ),
            SMCError::NotPrivileged => Some("You do NOT have enough privileges."@),
            SMCError::TryFrom(_) => Some("Invalid conversion from smc value"@),
            SMCError::TryInto => Some("Invalid conversion into smc value"@),
            SMCError::UnsafeValue => Some("Value outside of the safe range"@),
            SMCError::Unknown(io_res, smc_res) => Some(
                "Unknown error: IOKit exited with code "@ + decimal(io_res as int)
                    + " and SMC result "@ + decimal(smc_res as int) + "."@,
            ),
            SMCError::Sysctl(errno) => Some(
                "sysctl() call failed with errno "@ + decimal(errno as int) + "."@,
            ),
        }
    }

    /// What the error says to a person.
    pub fn message(&self) -> (r: String)
        ensures
            self.text() is Some ==> r@ == self.text()->Some_0,
    {
        match self {
            SMCError::DriverNotFound => "Driver not found.".to_owned(),
            SMCError::Open => "Failed to open driver.".to_owned(),
            SMCError::InvalidKey(e) => conversion_text(e),
            SMCError::KeyNotFound(code) => {
                let mut s = "Key ".to_owned();
                push_quoted(&mut s, code.to_bytes());
                s.append(" not found.");
                s
            },
            SMCError::NotPrivileged => "You do NOT have enough privileges.".to_owned(),
            SMCError::TryFrom(_) => "Invalid conversion from smc value".to_owned(),
            SMCError::TryInto => "Invalid conversion into smc value".to_owned(),
            SMCError::UnsafeValue => "Value outside of the safe range".to_owned(),
            SMCError::Unknown(io_res, smc_res) => {
                let mut s = "Unknown error: IOKit exited with code ".to_owned();
                push_decimal(&mut s, *io_res as i64);
                s.append(" and SMC result ");
                push_decimal(&mut s, *smc_res as i64);
                s.append(".");
                s
            },
            SMCError::Sysctl(errno) => {
                let mut s = "sysctl() call failed with errno ".to_owned();
                push_decimal(&mut s, *errno as i64);
                s.append(".");
                s
            },
        }
    }

    /// The name of the register that was not found, for that error.
    pub fn code(&self) -> (r: Option<Code>)
        ensures
            r == (match *self {
                SMCError::KeyNotFound(code) => Some(code),
                _ => None,
            }),
    {
        match self {
            SMCError::KeyNotFound(code) => Some(*code),
            _ => None,
        }
    }

    /// The result of the driver call, for an error that the library has no name
    /// for.
    pub fn io_result(&self) -> (r: Option<i32>)
        ensures
            r == (match *self {
                SMCError::Unknown(io_res, _) => Some(io_res),
                _ => None,
            }),
    {
        match self {
            SMCError::Unknown(io_res, _) => Some(*io_res),
            _ => None,
        }
    }

    /// The status of the controller, for an error that the library has no name
    /// for.
    pub fn smc_result(&self) -> (r: Option<u8>)
        ensures
            r == (match *self {
                SMCError::Unknown(_, smc_res) => Some(smc_res),
                _ => None,
            }),
    {
        match self {
            SMCError::Unknown(_, smc_res) => Some(*smc_res),
            _ => None,
        }
    }
}

} // verus!
