//! A typed register interface to a system management controller.
//!
//! Registers are named by four-byte codes and carry at most 32 bytes, tagged with
//! a four-byte type code that is only known at run time. This crate holds the
//! value codec, the table walkers and the fan rules; it performs no I/O itself.
//! Singles are held as their bits, and everything is computed on integers.

pub mod arith;
pub mod bounded;
pub mod code;
pub mod driver;
pub mod error;
pub mod fans;
pub mod float;
pub mod keys;
pub mod text;
pub mod types;
pub mod util;
pub mod val;
pub mod wire;

pub use bounded::{GreaterThan10, MoreDigits, OneDigit, UMax10};
pub use code::Code;
pub use driver::{SMCKey, SMCKeyInfoData, SMCParam, SMCSelector};
pub use error::SMCError;
pub use fans::{
    CheckedBitmask, CheckedSpeed, Fan, FanInfo, FanName, FanRegister, Fans, SpeedWrite,
};
pub use float::F32;
pub use keys::Keys;
pub use types::{FromSMC, IntoSMC};
pub use val::{DataType, SMCVal};
