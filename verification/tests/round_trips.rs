use smc::code::{
    TYPE_FLAG, TYPE_FLT, TYPE_FPE2, TYPE_I16, TYPE_I32, TYPE_I8, TYPE_SP78, TYPE_U16, TYPE_U32,
    TYPE_U8,
};
use smc::util::{
    write_bool, write_f32, write_i16, write_i32, write_i8, write_u16, write_u32, write_u8,
};
use smc::{Code, FromSMC, SMCVal, F32};

fn buffer(ty: u32, len: usize) -> SMCVal {
    SMCVal::new(Code::from_raw(ty), len, [0; 32]).unwrap()
}

fn through_f32(ty: u32, len: usize, v: f32) -> Option<f32> {
    let mut val = buffer(ty, len);
    write_f32(F32::from_bits(v.to_bits()), &mut val)?;
    F32::from_smc(val).map(|f| f32::from_bits(f.to_bits()))
}

#[test]
fn flags_round_trip() {
    for n in [false, true] {
        let mut val = buffer(TYPE_FLAG, 1);
        write_bool(n, &mut val).unwrap();
        assert_eq!(bool::from_smc(val), Some(n));
    }
}

#[test]
fn bytes_round_trip() {
    for n in 0u8..=255 {
        let mut val = buffer(TYPE_U8, 1);
        write_u8(n, &mut val).unwrap();
        assert_eq!(u8::from_smc(val), Some(n));
        let mut val = buffer(TYPE_I8, 1);
        write_i8(n as i8, &mut val).unwrap();
        assert_eq!(i8::from_smc(val), Some(n as i8));
    }
}

#[test]
fn bytes_round_trip_through_wider_buffers() {
    for n in 0u8..=255 {
        for (ty, len) in [(TYPE_I16, 2), (TYPE_U16, 2), (TYPE_I32, 4), (TYPE_U32, 4)] {
            let mut val = buffer(ty, len);
            write_u8(n, &mut val).unwrap();
            assert_eq!(i64::from_smc(val), Some(n as i64));
        }
        for (ty, len) in [(TYPE_I16, 2), (TYPE_I32, 4)] {
            let mut val = buffer(ty, len);
            write_i8(n as i8, &mut val).unwrap();
            assert_eq!(i32::from_smc(val), Some(n as i8 as i32));
        }
    }
}

#[test]
fn words_round_trip() {
    for n in 0u16..=u16::MAX {
        let mut val = buffer(TYPE_U16, 2);
        write_u16(n, &mut val).unwrap();
        assert_eq!(u16::from_smc(val), Some(n));
        assert_eq!(u32::from_smc(val), Some(n as u32));
        let mut val = buffer(TYPE_I16, 2);
        write_i16(n as i16, &mut val).unwrap();
        assert_eq!(i16::from_smc(val), Some(n as i16));
        assert_eq!(i64::from_smc(val), Some(n as i16 as i64));
        let mut val = buffer(TYPE_I32, 4);
        write_i16(n as i16, &mut val).unwrap();
        assert_eq!(i32::from_smc(val), Some(n as i16 as i32));
    }
}

#[test]
fn long_words_round_trip() {
    for n in [0u32, 1, 0x7fff_ffff, 0x8000_0000, 0xffff_ffff, 0x0102_0304, 0xfffe_fdfc] {
        let mut val = buffer(TYPE_U32, 4);
        write_u32(n, &mut val).unwrap();
        assert_eq!(u32::from_smc(val), Some(n));
        assert_eq!(i64::from_smc(val), Some(n as i64));
        let mut val = buffer(TYPE_I32, 4);
        write_i32(n as i32, &mut val).unwrap();
        assert_eq!(i32::from_smc(val), Some(n as i32));
        assert_eq!(val.data(), &(n as i32).to_be_bytes());
    }
}

#[test]
fn the_unsigned_fixed_point_format_keeps_whole_quarters() {
    assert_eq!(through_f32(TYPE_FPE2, 2, 1.1), Some(1.0));
    assert_eq!(through_f32(TYPE_FPE2, 2, 1.25), Some(1.25));
    assert_eq!(through_f32(TYPE_FPE2, 2, 1499.99), Some(1499.75));
    assert_eq!(through_f32(TYPE_FPE2, 2, 0.0), Some(0.0));
    for v in [0.3f32, 7.77, 1234.567, 16383.7, 0.9] {
        assert_eq!(through_f32(TYPE_FPE2, 2, v), Some((v * 4.0).floor() / 4.0));
    }
}

#[test]
fn the_unsigned_fixed_point_format_takes_nothing_negative() {
    assert_eq!(through_f32(TYPE_FPE2, 2, -1.1), None);
    assert_eq!(through_f32(TYPE_FPE2, 2, -0.0), None);
    assert_eq!(through_f32(TYPE_FPE2, 2, f32::NEG_INFINITY), None);
}

#[test]
fn the_signed_fixed_point_format_keeps_the_nearest_256th() {
    assert_eq!(through_f32(TYPE_SP78, 2, 1.1), Some(282.0 / 256.0));
    assert_eq!(through_f32(TYPE_SP78, 2, -1.1), Some(-282.0 / 256.0));
    assert_eq!(through_f32(TYPE_SP78, 2, 42.5), Some(42.5));
    for v in [0.3f32, -7.77, 100.001, -127.9, 0.0019, 0.002] {
        assert_eq!(through_f32(TYPE_SP78, 2, v), Some((v * 256.0).round() / 256.0));
    }
}

#[test]
fn singles_round_trip_bit_for_bit() {
    for v in [0.0f32, -0.0, 1.1, -3.5e-20, f32::MAX, f32::INFINITY, f32::MIN_POSITIVE] {
        assert_eq!(through_f32(TYPE_FLT, 4, v).map(f32::to_bits), Some(v.to_bits()));
    }
    let mut val = buffer(TYPE_FLT, 4);
    write_f32(F32::from_bits(0x7fc0_1234), &mut val).unwrap();
    assert_eq!(F32::from_smc(val).map(|f| f.to_bits()), Some(0x7fc0_1234));
}
