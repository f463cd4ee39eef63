use four_char_code::FourCharCode;
use smc::code::{TYPE_FAN, TYPE_FLT, TYPE_FPE2, TYPE_U16, TYPE_U32, TYPE_U8};
use smc::fans::{
    fan_set_managed, is_managed, percent, rpm, set_current_speed, set_min_speed, KEY_FAN_MODES,
};
use smc::{
    CheckedBitmask, CheckedSpeed, Code, Fan, FanName, FanRegister, FromSMC, IntoSMC, OneDigit,
    SMCError, SMCVal, F32,
};

fn digit(v: u8) -> OneDigit {
    OneDigit::new(v).unwrap()
}

fn speed(v: f32) -> F32 {
    F32::from_bits(v.to_bits())
}

fn block(ty: u32, bytes: &[u8]) -> SMCVal {
    let mut data = [0u8; 32];
    data[..bytes.len()].copy_from_slice(bytes);
    SMCVal::new(Code::from_raw(ty), bytes.len(), data).unwrap()
}

fn name_of(bytes: &[u8]) -> Option<Vec<u8>> {
    FanName::from_smc(block(TYPE_FAN, bytes)).map(|n| n.as_bytes().to_vec())
}

#[test]
fn fan_name_follows_the_first_four_bytes() {
    assert_eq!(name_of(b"\x01\x02\x03\x04Exhaust\0\0\0\0\0"), Some(b"Exhaust".to_vec()));
    assert_eq!(name_of(b"abcdLeft side"), Some(b"Left side".to_vec()));
}

#[test]
fn fan_name_ends_at_the_first_zero_byte() {
    assert_eq!(name_of(b"\0\0\0\0Main\0Rest"), Some(b"Main".to_vec()));
    assert_eq!(name_of(b"\0\0\0\0\0Main"), Some(Vec::new()));
}

#[test]
fn fan_name_is_trimmed() {
    assert_eq!(name_of(b"\0\0\0\0  Left side  \0"), Some(b"Left side".to_vec()));
    assert_eq!(name_of(b"\0\0\0\0\t\r\nMain \x0b\x0c"), Some(b"Main".to_vec()));
    assert_eq!(name_of(b"\0\0\0\0     "), Some(Vec::new()));
    assert_eq!(name_of(b"\0\0\0\0 a \0 b"), Some(b"a".to_vec()));
}

#[test]
fn fan_name_may_be_empty_or_fill_the_block() {
    assert_eq!(name_of(b"\0\0\0\0"), Some(Vec::new()));
    let full = [b'x'; 32];
    assert_eq!(name_of(&full), Some(vec![b'x'; 28]));
    assert_eq!(FanName::from_smc(block(TYPE_FAN, &full)).unwrap().len(), 28);
}

#[test]
fn fan_name_needs_a_fan_block_of_four_bytes() {
    assert_eq!(name_of(b"abc"), None);
    assert_eq!(name_of(b""), None);
    assert!(FanName::from_smc(block(TYPE_U32, b"abcdMain")).is_none());
    assert!(FanName::from_smc(block(TYPE_U8, b"a")).is_none());
}

#[test]
fn fan_holds_its_index_and_name() {
    let name = FanName::from_smc(block(TYPE_FAN, b"\0\0\0\0Exhaust")).unwrap();
    let fan = Fan::new(digit(3), name);
    assert_eq!(fan.id().get(), 3);
    assert_eq!(fan.name(), b"Exhaust");
}

#[test]
fn fan_registers_are_named_by_the_index() {
    for id in 0u8..=9 {
        for (register, suffix) in [
            (FanRegister::Id, "ID"),
            (FanRegister::MinSpeed, "Mn"),
            (FanRegister::MaxSpeed, "Mx"),
            (FanRegister::CurrentSpeed, "Ac"),
            (FanRegister::TargetSpeed, "Tg"),
        ] {
            let text = format!("F{id}{suffix}");
            let want = FourCharCode::from_str(&text).unwrap().as_u32();
            assert_eq!(register.key(digit(id)).unwrap().as_u32(), want, "{text}");
        }
    }
}

#[test]
fn a_clear_bit_means_managed() {
    assert!(is_managed(0, digit(0)));
    assert!(!is_managed(1, digit(0)));
    assert!(is_managed(1, digit(1)));
    assert!(!is_managed(0b10_0000_0000, digit(9)));
    assert!(is_managed(0b01_1111_1111, digit(9)));
    assert!(!is_managed(u16::MAX, digit(4)));
}

#[test]
fn set_managed_changes_one_bit() {
    assert_eq!(fan_set_managed(0b0110, digit(1), true), Some(0b0100));
    assert_eq!(fan_set_managed(0b0110, digit(0), false), Some(0b0111));
    assert_eq!(fan_set_managed(0, digit(9), false), Some(0b10_0000_0000));
    assert_eq!(fan_set_managed(u16::MAX, digit(9), true), Some(0b1111_1101_1111_1111));
}

#[test]
fn set_managed_writes_nothing_where_nothing_changes() {
    assert_eq!(fan_set_managed(0b0110, digit(0), true), None);
    assert_eq!(fan_set_managed(0b0110, digit(1), false), None);
}

#[test]
fn the_second_of_two_equal_requests_writes_nothing() {
    for start in [0u16, 0b101, u16::MAX, 0x8421] {
        for id in 0u8..=9 {
            for managed in [true, false] {
                let mut stored = start;
                let mut writes = 0;
                for _ in 0..2 {
                    if let Some(new) = fan_set_managed(stored, digit(id), managed) {
                        stored = new;
                        writes += 1;
                    }
                }
                assert!(writes <= 1);
                assert_eq!(writes == 1, is_managed(start, digit(id)) != managed);
                assert_eq!(is_managed(stored, digit(id)), managed);
                for other in (0u8..=9).filter(|o| *o != id) {
                    assert_eq!(is_managed(stored, digit(other)), is_managed(start, digit(other)));
                }
            }
        }
    }
}

#[test]
fn toggling_managed_twice_writes_once() {
    let mut stored: u16 = 0b1;
    let mut writes = 0;
    for _ in 0..2 {
        if let Some(new) = fan_set_managed(stored, digit(0), true) {
            stored = new;
            writes += 1;
        }
    }
    assert_eq!(writes, 1);
    assert_eq!(stored, 0);
}

#[test]
fn the_bitmask_is_written_as_an_unsigned_word() {
    let mut val = block(TYPE_U16, &[0, 0]);
    assert_eq!(CheckedBitmask(0x0102).into_smc(&mut val), Some(()));
    assert_eq!(val.data(), &[1, 2]);
    let mut val = block(TYPE_U32, &[9, 9, 9, 9]);
    assert_eq!(CheckedBitmask(0x0102).into_smc(&mut val), Some(()));
    assert_eq!(val.data(), &[0, 0, 1, 2]);
    let mut val = block(TYPE_U8, &[9]);
    assert_eq!(CheckedBitmask(1).into_smc(&mut val), None);
    assert_eq!(val.data(), &[9]);
    assert_eq!(KEY_FAN_MODES, FourCharCode::from_str("FS! ").unwrap().as_u32());
}

#[test]
fn a_least_speed_of_zero_is_not_safe() {
    let r = set_min_speed(digit(0), speed(3000.0), speed(0.0));
    assert!(matches!(r, Err(SMCError::UnsafeValue)));
}

#[test]
fn a_least_speed_must_be_above_zero_and_at_most_the_greatest() {
    for v in [-1.0f32, -0.0, 0.0, 3000.25, 1.0e9, f32::INFINITY, f32::NAN] {
        assert!(matches!(
            set_min_speed(digit(1), speed(3000.0), speed(v)),
            Err(SMCError::UnsafeValue)
        ));
    }
    for v in [f32::MIN_POSITIVE, 0.25, 1200.0, 3000.0] {
        let write = set_min_speed(digit(1), speed(3000.0), speed(v)).unwrap();
        assert_eq!(write.key.as_u32(), FourCharCode::from_str("F1Mn").unwrap().as_u32());
        assert_eq!(write.speed.speed.to_bits(), v.to_bits());
        assert!(!write.manual);
    }
    assert!(set_min_speed(digit(1), speed(f32::NAN), speed(1.0)).is_err());
}

#[test]
fn a_speed_above_the_greatest_is_not_safe() {
    let r = set_current_speed(digit(0), speed(500.0), speed(3000.0), speed(3500.0));
    assert!(matches!(r, Err(SMCError::UnsafeValue)));
}

#[test]
fn a_speed_within_the_range_is_written_by_hand() {
    let write = set_current_speed(digit(2), speed(500.0), speed(3000.0), speed(1500.0)).unwrap();
    assert_eq!(write.key.as_u32(), FourCharCode::from_str("F2Tg").unwrap().as_u32());
    assert_eq!(write.speed.speed.to_bits(), 1500.0f32.to_bits());
    assert!(write.manual);
    let cleared = fan_set_managed(0, digit(2), !write.manual).unwrap();
    assert!(!is_managed(cleared, digit(2)));
}

#[test]
fn a_speed_must_lie_between_the_least_and_the_greatest() {
    for v in [499.75f32, 0.0, -1500.0, 3000.25, f32::NAN, f32::INFINITY] {
        assert!(matches!(
            set_current_speed(digit(0), speed(500.0), speed(3000.0), speed(v)),
            Err(SMCError::UnsafeValue)
        ));
    }
    for v in [500.0f32, 500.25, 2999.0, 3000.0] {
        assert!(set_current_speed(digit(0), speed(500.0), speed(3000.0), speed(v)).is_ok());
    }
    assert!(set_current_speed(digit(0), speed(f32::NAN), speed(3000.0), speed(1.0)).is_err());
}

#[test]
fn a_fan_decides_as_the_rules_do() {
    let name = FanName::from_smc(block(TYPE_FAN, b"\0\0\0\0Main")).unwrap();
    let fan = Fan::new(digit(4), name);
    assert!(fan.is_managed(0));
    assert!(!fan.is_managed(0b1_0000));
    assert_eq!(fan.set_managed(0, false), Some(0b1_0000));
    assert_eq!(fan.set_managed(0, true), None);
    assert!(matches!(fan.set_min_speed(speed(3000.0), speed(0.0)), Err(SMCError::UnsafeValue)));
    let write = fan.set_min_speed(speed(3000.0), speed(800.0)).unwrap();
    assert_eq!(write.key.as_u32(), FourCharCode::from_str("F4Mn").unwrap().as_u32());
    let write = fan.set_current_speed(speed(500.0), speed(3000.0), speed(1500.0)).unwrap();
    assert_eq!(write.key.as_u32(), FourCharCode::from_str("F4Tg").unwrap().as_u32());
    assert!(write.manual);
    assert!(fan.set_current_speed(speed(500.0), speed(3000.0), speed(3500.0)).is_err());
}

#[test]
fn a_snapshot_keeps_what_was_read() {
    let name = FanName::from_smc(block(TYPE_FAN, b"\0\0\0\0Main")).unwrap();
    let fan = Fan::new(digit(1), name);
    let mut info = fan.into_info(speed(500.0), speed(3000.0), speed(1200.0), 0b10);
    assert_eq!(info.id().get(), 1);
    assert_eq!(info.name(), b"Main");
    assert_eq!(info.min_speed().to_bits(), 500.0f32.to_bits());
    assert_eq!(info.max_speed().to_bits(), 3000.0f32.to_bits());
    assert_eq!(info.current_speed().to_bits(), 1200.0f32.to_bits());
    assert!(!info.is_managed());
    assert_eq!(info.set_managed(0b10, true), Some(0));
    assert!(info.set_min_speed(speed(3000.5)).is_err());
    assert!(info.set_min_speed(speed(3000.0)).is_ok());
    assert!(info.set_current_speed(speed(499.0)).is_err());
    assert!(info.set_current_speed(speed(500.0)).is_ok());
    info.refresh(speed(600.0), speed(2800.0), speed(700.0), 0);
    assert_eq!(info.min_speed().to_bits(), 600.0f32.to_bits());
    assert_eq!(info.max_speed().to_bits(), 2800.0f32.to_bits());
    assert_eq!(info.current_speed().to_bits(), 700.0f32.to_bits());
    assert!(info.is_managed());
    assert!(info.set_current_speed(speed(500.0)).is_err());
    assert_eq!(info.into_fan().id().get(), 1);
    assert_eq!(Fan::from(info).name(), b"Main");
}

#[test]
fn a_checked_speed_is_written_in_the_type_of_the_register() {
    let mut val = block(TYPE_FPE2, &[0, 0]);
    assert_eq!(CheckedSpeed::new_unchecked(speed(1500.0)).into_smc(&mut val), Some(()));
    assert_eq!(val.data(), &[0x17, 0x70]);
    let mut val = block(TYPE_FLT, &[0, 0, 0, 0]);
    assert_eq!(CheckedSpeed::new_unchecked(speed(1500.0)).into_smc(&mut val), Some(()));
    assert_eq!(val.data(), &1500.0f32.to_be_bytes());
    let mut val = block(TYPE_U16, &[7, 7]);
    assert_eq!(CheckedSpeed::new_unchecked(speed(1500.0)).into_smc(&mut val), None);
    assert_eq!(val.data(), &[7, 7]);
}

fn native(v: F32) -> f32 {
    f32::from_bits(v.to_bits())
}

#[test]
fn rpm_is_floored_at_zero() {
    assert_eq!(native(rpm(speed(5.0), speed(10.0))), 0.0);
    assert_eq!(rpm(speed(5.0), speed(10.0)).to_bits(), 0);
    assert_eq!(native(rpm(speed(10.0), speed(10.0))), 0.0);
    assert_eq!(native(rpm(speed(-1.0), speed(0.0))), 0.0);
}

#[test]
fn rpm_is_the_speed_above_the_least() {
    assert_eq!(native(rpm(speed(1500.0), speed(500.0))), 1000.0);
    assert_eq!(native(rpm(speed(1200.25), speed(1200.0))), 0.25);
    assert_eq!(native(rpm(speed(3000.0), speed(0.0))), 3000.0);
}

#[test]
fn percent_of_the_least_speed_is_zero() {
    assert_eq!(native(percent(speed(0.0), speed(0.0), speed(100.0))), 0.0);
    assert_eq!(native(percent(speed(500.0), speed(500.0), speed(3000.0))), 0.0);
    assert_eq!(native(percent(speed(100.0), speed(500.0), speed(3000.0))), 0.0);
}

#[test]
fn percent_is_not_cut_at_a_hundred() {
    assert_eq!(native(percent(speed(150.0), speed(0.0), speed(100.0))), 150.0);
    assert_eq!(native(percent(speed(3000.0), speed(500.0), speed(3000.0))), 100.0);
    assert_eq!(native(percent(speed(1750.0), speed(500.0), speed(3000.0))), 50.0);
}

#[test]
fn rpm_and_percent_are_what_the_machine_computes() {
    let values = [0.0f32, 0.25, 5.0, 10.0, 100.0, 150.0, 499.75, 500.0, 1234.5, 3000.0, 16383.75];
    for c in values {
        for mn in values {
            let want = if c - mn < 0.0 { 0.0 } else { c - mn };
            assert_eq!(rpm(speed(c), speed(mn)).to_bits(), want.to_bits());
            for mx in values {
                let want = want / (mx - mn) * 100.0;
                let got = percent(speed(c), speed(mn), speed(mx));
                if want.is_nan() {
                    assert!(got.is_nan());
                } else {
                    assert_eq!(got.to_bits(), want.to_bits(), "{c} {mn} {mx}");
                }
            }
        }
    }
}

#[test]
fn a_snapshot_computes_rpm_and_percent() {
    let name = FanName::from_smc(block(TYPE_FAN, b"\0\0\0\0Main")).unwrap();
    let info = Fan::new(digit(0), name).into_info(speed(500.0), speed(3000.0), speed(1750.0), 0);
    assert_eq!(native(info.rpm()), 1250.0);
    assert_eq!(native(info.percent()), 50.0);
}
