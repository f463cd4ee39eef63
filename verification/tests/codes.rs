use four_char_code::FourCharCode;
use smc::code::{
    TYPE_FAN, TYPE_FLAG, TYPE_FLT, TYPE_FPE2, TYPE_I16, TYPE_I32, TYPE_I8, TYPE_SP78, TYPE_U16,
    TYPE_U32, TYPE_U8,
};
use smc::driver::KEY_OPTICAL_DISK;
use smc::fans::{KEY_FAN_COUNT, KEY_FAN_MODES};
use smc::keys::KEY_COUNT;
use smc::Code;

fn outside(text: &str) -> u32 {
    FourCharCode::from_str(text).unwrap().as_u32()
}

#[test]
fn type_tags_are_the_codes_of_their_names() {
    assert_eq!(TYPE_FLAG, outside("flag"));
    assert_eq!(TYPE_I8, outside("si8 "));
    assert_eq!(TYPE_U8, outside("ui8 "));
    assert_eq!(TYPE_I16, outside("si16"));
    assert_eq!(TYPE_U16, outside("ui16"));
    assert_eq!(TYPE_I32, outside("si32"));
    assert_eq!(TYPE_U32, outside("ui32"));
    assert_eq!(TYPE_FLT, outside("flt "));
    assert_eq!(TYPE_FPE2, outside("fpe2"));
    assert_eq!(TYPE_SP78, outside("sp78"));
    assert_eq!(TYPE_FAN, outside("{fds"));
}

#[test]
fn register_names_are_the_codes_of_their_names() {
    assert_eq!(KEY_COUNT, outside("#KEY"));
    assert_eq!(KEY_FAN_COUNT, outside("FNum"));
    assert_eq!(KEY_FAN_MODES, outside("FS! "));
    assert_eq!(KEY_OPTICAL_DISK, outside("MSDI"));
}

#[test]
fn from_array_reads_big_endian() {
    let code = Code::from_array([0x46, 0x30, 0x4d, 0x6e]).unwrap();
    assert_eq!(code.as_u32(), 0x4630_4d6e);
    assert_eq!(code.to_bytes(), [0x46, 0x30, 0x4d, 0x6e]);
}

#[test]
fn from_array_pads_trailing_zero_bytes() {
    assert_eq!(Code::from_array([0x75, 0x69, 0x38, 0]).unwrap().as_u32(), TYPE_U8);
    assert_eq!(Code::from_array([0x75, 0x69, 0, 0]).unwrap().as_u32(), 0x7569_2020);
    assert_eq!(Code::from_array([0, 0, 0, 0]).unwrap().as_u32(), 0x2020_2020);
}

#[test]
fn from_array_keeps_a_zero_byte_before_other_bytes() {
    assert_eq!(Code::from_array([0, 0x69, 0x67, 0x72]).unwrap().as_u32(), 0x0069_6772);
    assert_eq!(Code::from_array([0x61, 0, 0x62, 0]).unwrap().as_u32(), 0x6100_6220);
}

#[test]
fn from_array_refuses_bytes_above_ascii() {
    assert!(Code::from_array([0x80, 0x5f, 0x5f, 0x5f]).is_err());
    assert!(Code::from_array([0x5f, 0x5f, 0x5f, 0xff]).is_err());
    assert!(Code::from_array([0x7f, 0x7f, 0x7f, 0x7f]).is_ok());
}

#[test]
fn from_array_agrees_with_the_outside_crate() {
    for bytes in [[0x46u8, 0x4e, 0x75, 0x6d], [0x23, 0x4b, 0x45, 0x59], [0x41, 0, 0, 0], [1, 2, 3, 0]] {
        assert_eq!(
            Code::from_array(bytes).unwrap().as_u32(),
            FourCharCode::from_array(bytes).unwrap().as_u32()
        );
    }
}

#[test]
fn from_raw_pads_trailing_zero_bytes() {
    assert_eq!(Code::from_raw(0x7569_3800).as_u32(), 0x7569_3820);
    assert_eq!(Code::from_raw(0x7569_0000).as_u32(), 0x7569_2020);
    assert_eq!(Code::from_raw(0x7500_0000).as_u32(), 0x7520_2020);
    assert_eq!(Code::from_raw(0).as_u32(), 0x2020_2020);
    assert_eq!(Code::from_raw(0x7569_3136).as_u32(), 0x7569_3136);
    assert_eq!(Code::from_raw(0x0069_0036).as_u32(), 0x0069_0036);
    assert_eq!(Code::from_raw(0xff00_ff00).as_u32(), 0xff00_ff20);
}

#[test]
fn from_raw_agrees_with_the_outside_crate() {
    for raw in [0u32, 0x7569_3800, 0x6100_0000, 0x0000_0061, 0x6162_0000, 0x7f7f_7f7f] {
        assert_eq!(Code::from_raw(raw).as_u32(), FourCharCode::new(raw).unwrap().as_u32());
    }
}

#[test]
fn default_code_is_four_spaces() {
    assert_eq!(Code::default().as_u32(), 0x2020_2020);
    assert_eq!(Code::default().as_u32(), FourCharCode::default().as_u32());
}

#[test]
fn codes_compare_by_their_bytes() {
    assert_eq!(Code::from_raw(TYPE_U8), Code::from_array([0x75, 0x69, 0x38, 0x20]).unwrap());
    assert_ne!(Code::from_raw(TYPE_U8), Code::from_raw(TYPE_I8));
}
