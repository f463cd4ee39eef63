use smc::code::{
    TYPE_FAN, TYPE_FLAG, TYPE_FLT, TYPE_FPE2, TYPE_I16, TYPE_I32, TYPE_I8, TYPE_SP78, TYPE_U16,
    TYPE_U32, TYPE_U8,
};
use smc::util::{
    write_bool, write_f32, write_i16, write_i32, write_i8, write_u16, write_u32, write_u8,
};
use smc::{Code, SMCVal, F32};

const ALL: [(u32, usize); 12] = [
    (TYPE_FLAG, 1),
    (TYPE_I8, 1),
    (TYPE_U8, 1),
    (TYPE_I16, 2),
    (TYPE_U16, 2),
    (TYPE_I32, 4),
    (TYPE_U32, 4),
    (TYPE_FLT, 4),
    (TYPE_FPE2, 2),
    (TYPE_SP78, 2),
    (TYPE_FAN, 16),
    (TYPE_U32, 2),
];

fn buffer(ty: u32, len: usize) -> SMCVal {
    SMCVal::new(Code::from_raw(ty), len, [0xaa; 32]).unwrap()
}

fn expect(val: &SMCVal, front: &[u8]) {
    let raw = val.into_raw();
    assert_eq!(&raw[..front.len()], front);
    assert!(raw[front.len()..].iter().all(|b| *b == 0xaa));
}

/// Runs a writer on every kind of buffer and checks that it writes `bytes(ty)`
/// where that is `Some` and leaves the buffer alone where it is `None`.
fn check(write: impl Fn(&mut SMCVal) -> Option<()>, bytes: impl Fn(u32, usize) -> Option<Vec<u8>>) {
    for (ty, len) in ALL {
        let mut val = buffer(ty, len);
        let r = write(&mut val);
        assert_eq!(val.ty().as_u32(), ty);
        assert_eq!(val.len(), len);
        match bytes(ty, len) {
            Some(front) => {
                assert_eq!(r, Some(()), "type {ty:#x}");
                expect(&val, &front);
            }
            None => {
                assert_eq!(r, None, "type {ty:#x}");
                expect(&val, &[]);
            }
        }
    }
}

#[test]
fn write_bool_takes_flags_only() {
    check(|v| write_bool(true, v), |ty, len| (ty == TYPE_FLAG && len == 1).then_some(vec![1]));
    check(|v| write_bool(false, v), |ty, len| (ty == TYPE_FLAG && len == 1).then_some(vec![0]));
}

#[test]
fn write_u8_widens() {
    check(
        |v| write_u8(0xfe, v),
        |ty, len| match (ty, len) {
            (TYPE_U8, 1) => Some(vec![0xfe]),
            (TYPE_I16, 2) | (TYPE_U16, 2) => Some(vec![0, 0xfe]),
            (TYPE_I32, 4) | (TYPE_U32, 4) => Some(vec![0, 0, 0, 0xfe]),
            _ => None,
        },
    );
}

#[test]
fn write_i8_widens_with_its_sign() {
    check(
        |v| write_i8(-2, v),
        |ty, len| match (ty, len) {
            (TYPE_I8, 1) => Some(vec![0xfe]),
            (TYPE_I16, 2) => Some(vec![0xff, 0xfe]),
            (TYPE_I32, 4) => Some(vec![0xff, 0xff, 0xff, 0xfe]),
            _ => None,
        },
    );
    check(
        |v| write_i8(i8::MIN, v),
        |ty, len| match (ty, len) {
            (TYPE_I8, 1) => Some(vec![0x80]),
            (TYPE_I16, 2) => Some(vec![0xff, 0x80]),
            (TYPE_I32, 4) => Some(vec![0xff, 0xff, 0xff, 0x80]),
            _ => None,
        },
    );
}

#[test]
fn write_u16_is_big_endian_and_widens() {
    check(
        |v| write_u16(0xfedc, v),
        |ty, len| match (ty, len) {
            (TYPE_U16, 2) => Some(vec![0xfe, 0xdc]),
            (TYPE_I32, 4) | (TYPE_U32, 4) => Some(vec![0, 0, 0xfe, 0xdc]),
            _ => None,
        },
    );
}

#[test]
fn write_i16_is_big_endian_and_widens() {
    check(
        |v| write_i16(-292, v),
        |ty, len| match (ty, len) {
            (TYPE_I16, 2) => Some(vec![0xfe, 0xdc]),
            (TYPE_I32, 4) => Some(vec![0xff, 0xff, 0xfe, 0xdc]),
            _ => None,
        },
    );
    check(
        |v| write_i16(0x1234, v),
        |ty, len| match (ty, len) {
            (TYPE_I16, 2) => Some(vec![0x12, 0x34]),
            (TYPE_I32, 4) => Some(vec![0, 0, 0x12, 0x34]),
            _ => None,
        },
    );
}

#[test]
fn write_u32_is_big_endian() {
    check(
        |v| write_u32(0xfedc_ba98, v),
        |ty, len| (ty == TYPE_U32 && len == 4).then_some(vec![0xfe, 0xdc, 0xba, 0x98]),
    );
}

#[test]
fn write_i32_is_big_endian() {
    check(
        |v| write_i32(-19_088_744, v),
        |ty, len| (ty == TYPE_I32 && len == 4).then_some(vec![0xfe, 0xdc, 0xba, 0x98]),
    );
    check(
        |v| write_i32(i32::MIN, v),
        |ty, len| (ty == TYPE_I32 && len == 4).then_some(vec![0x80, 0, 0, 0]),
    );
    check(
        |v| write_i32(i32::MAX, v),
        |ty, len| (ty == TYPE_I32 && len == 4).then_some(vec![0x7f, 0xff, 0xff, 0xff]),
    );
}

#[test]
fn writers_agree_with_std_on_every_small_value() {
    for n in 0u16..=u16::MAX {
        let mut val = buffer(TYPE_U16, 2);
        assert_eq!(write_u16(n, &mut val), Some(()));
        assert_eq!(val.data(), &n.to_be_bytes());
        let mut val = buffer(TYPE_I16, 2);
        assert_eq!(write_i16(n as i16, &mut val), Some(()));
        assert_eq!(val.data(), &(n as i16).to_be_bytes());
        let mut val = buffer(TYPE_I32, 4);
        assert_eq!(write_i16(n as i16, &mut val), Some(()));
        assert_eq!(val.data(), &(n as i16 as i32).to_be_bytes());
    }
}

#[test]
fn write_f32_quantizes_by_the_type_of_the_buffer() {
    let n = F32::from_bits(1.1f32.to_bits());
    check(
        |v| write_f32(n, v),
        |ty, len| match (ty, len) {
            (TYPE_FPE2, 2) => Some(vec![0, 4]),
            (TYPE_SP78, 2) => Some(vec![0x01, 0x1a]),
            (TYPE_FLT, 4) => Some(1.1f32.to_be_bytes().to_vec()),
            _ => None,
        },
    );
}

#[test]
fn write_f32_refuses_a_negative_value_in_the_unsigned_format() {
    for v in [-1.0f32, -0.0, -0.25, -16000.0, f32::NEG_INFINITY, f32::MIN] {
        let n = F32::from_bits(v.to_bits());
        check(
            |val| write_f32(n, val),
            |ty, len| match (ty, len) {
                (TYPE_FPE2, 2) => None,
                (TYPE_SP78, 2) => Some(((v * 256.0).round() as i16).to_be_bytes().to_vec()),
                (TYPE_FLT, 4) => Some(v.to_be_bytes().to_vec()),
                _ => None,
            },
        );
    }
}

#[test]
fn write_f32_always_writes_the_signed_format() {
    for v in [0.0f32, 1.0, -1.0, 127.99, -128.0, 1.0e30, -1.0e30, f32::NAN, f32::INFINITY] {
        let mut val = buffer(TYPE_SP78, 2);
        assert_eq!(write_f32(F32::from_bits(v.to_bits()), &mut val), Some(()));
        assert_eq!(val.data(), &((v * 256.0).round() as i16).to_be_bytes());
    }
}
