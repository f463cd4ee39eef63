use smc::code::{TYPE_FLAG, TYPE_U16, TYPE_U32, TYPE_U8};
use smc::driver::{
    call_driver, get_key, get_key_request, key_info, key_info_request, read_data, read_request,
    write_data, IO_RETURN_NOT_PRIVILEGED, IO_RETURN_SUCCESS,
};
use smc::{
    CheckedBitmask, Code, DataType, SMCError, SMCKey, SMCKeyInfoData, SMCParam, SMCSelector,
    SMCVal,
};

fn key(name: [u8; 4], ty: u32, size: u32) -> SMCKey {
    SMCKey {
        code: Code::from_array(name).unwrap(),
        info: DataType { id: Code::from_raw(ty), size },
    }
}

fn answer(bytes: &[u8]) -> SMCParam {
    let mut out = SMCParam::default();
    out.bytes[..bytes.len()].copy_from_slice(bytes);
    out
}

fn blank_info(size: u32) -> SMCKeyInfoData {
    SMCKeyInfoData { data_size: size, data_type: 0x2020_2020, data_attributes: 0 }
}

#[test]
fn selectors_have_the_numbers_of_the_driver() {
    assert_eq!(SMCSelector::Unknown.number(), 0);
    assert_eq!(SMCSelector::ReadKey.number(), 5);
    assert_eq!(SMCSelector::WriteKey.number(), 6);
    assert_eq!(SMCSelector::GetKeyFromIndex.number(), 8);
    assert_eq!(SMCSelector::GetKeyInfo.number(), 9);
    assert_eq!(SMCSelector::default(), SMCSelector::Unknown);
}

#[test]
fn selectors_are_found_by_their_numbers() {
    for n in 0u8..=255 {
        let want = match n {
            5 => SMCSelector::ReadKey,
            6 => SMCSelector::WriteKey,
            8 => SMCSelector::GetKeyFromIndex,
            9 => SMCSelector::GetKeyInfo,
            _ => SMCSelector::Unknown,
        };
        assert_eq!(SMCSelector::from_number(n), want);
        if want != SMCSelector::Unknown {
            assert_eq!(want.number(), n);
        }
    }
}

#[test]
fn the_result_for_a_missing_privilege_is_that_of_the_system() {
    let system = 0x38u32 << 26;
    assert_eq!(IO_RETURN_NOT_PRIVILEGED, (system | 0x2c1) as i32);
    assert_eq!(IO_RETURN_SUCCESS, 0);
}

#[test]
fn a_blank_request_asks_nothing() {
    let r = SMCParam::default();
    assert_eq!(r.key, 0x2020_2020);
    assert_eq!(r.key_info, blank_info(0));
    assert_eq!((r.result, r.status, r.data32), (0, 0, 0));
    assert_eq!(r.selector, SMCSelector::Unknown);
    assert_eq!(r.bytes, [0; 32]);
}

#[test]
fn success_hands_the_answer_on() {
    let mut out = answer(&[1, 2, 3]);
    out.data32 = 7;
    let got = call_driver(Code::default(), 0, out).unwrap();
    assert_eq!(got.bytes, out.bytes);
    assert_eq!(got.data32, 7);
}

#[test]
fn status_132_means_that_the_register_is_missing() {
    let name = Code::from_array(*b"F0Mn").unwrap();
    let mut out = SMCParam::default();
    out.result = 132;
    match call_driver(name, 0, out) {
        Err(SMCError::KeyNotFound(code)) => assert_eq!(code, name),
        other => panic!("{other:?}"),
    }
}

#[test]
fn a_missing_privilege_is_told_apart() {
    for status in [0u8, 1, 132, 255] {
        let mut out = SMCParam::default();
        out.result = status;
        assert!(matches!(
            call_driver(Code::default(), IO_RETURN_NOT_PRIVILEGED, out),
            Err(SMCError::NotPrivileged)
        ));
    }
}

#[test]
fn any_other_outcome_is_handed_on_as_it_is() {
    for (io, status) in [(0, 1u8), (0, 133), (0, 255), (1, 0), (-1, 132), (i32::MIN, 7)] {
        let mut out = SMCParam::default();
        out.result = status;
        match call_driver(Code::default(), io, out) {
            Err(SMCError::Unknown(a, b)) => assert_eq!((a, b), (io, status)),
            other => panic!("{other:?}"),
        }
    }
}

#[test]
fn key_info_request_names_the_register() {
    let r = key_info_request(Code::from_array(*b"FNum").unwrap());
    assert_eq!(r.key, 0x464e_756d);
    assert_eq!(r.selector, SMCSelector::GetKeyInfo);
    assert_eq!(r.key_info, blank_info(0));
    assert_eq!((r.result, r.status, r.data32), (0, 0, 0));
    assert_eq!(r.bytes, [0; 32]);
}

#[test]
fn key_info_reads_the_declaration() {
    let mut out = SMCParam::default();
    out.key_info = SMCKeyInfoData { data_size: 2, data_type: TYPE_U16, data_attributes: 0x80 };
    assert_eq!(key_info(&out), DataType { id: Code::from_raw(TYPE_U16), size: 2 });
}

#[test]
fn key_info_pads_the_tag() {
    let mut out = SMCParam::default();
    out.key_info = SMCKeyInfoData { data_size: 1, data_type: 0x7569_3800, data_attributes: 0 };
    assert_eq!(key_info(&out).id.as_u32(), TYPE_U8);
}

#[test]
fn get_key_request_carries_the_index() {
    let r = get_key_request(0x0102_0304);
    assert_eq!(r.selector, SMCSelector::GetKeyFromIndex);
    assert_eq!(r.data32, 0x0102_0304);
    assert_eq!(r.key, 0x2020_2020);
    assert_eq!(r.key_info, blank_info(0));
    assert_eq!(r.bytes, [0; 32]);
}

#[test]
fn get_key_reads_the_name_and_pads_it() {
    let mut out = SMCParam::default();
    out.key = 0x4630_4d6e;
    assert_eq!(get_key(&out).as_u32(), 0x4630_4d6e);
    out.key = 0x4142_0000;
    assert_eq!(get_key(&out).as_u32(), 0x4142_2020);
}

#[test]
fn read_request_carries_the_declared_size() {
    let r = read_request(key(*b"FNum", TYPE_U8, 1));
    assert_eq!(r.key, 0x464e_756d);
    assert_eq!(r.selector, SMCSelector::ReadKey);
    assert_eq!(r.key_info, blank_info(1));
    assert_eq!(r.data32, 0);
    assert_eq!(r.bytes, [0; 32]);
}

#[test]
fn read_data_decodes_by_the_declaration() {
    let out = answer(&[0x12, 0x34, 0x56, 0x78]);
    assert_eq!(read_data::<u8>(key(*b"TEST", TYPE_U8, 1), &out).unwrap(), 0x12);
    assert_eq!(read_data::<u16>(key(*b"TEST", TYPE_U16, 2), &out).unwrap(), 0x1234);
    assert_eq!(read_data::<u32>(key(*b"TEST", TYPE_U32, 4), &out).unwrap(), 0x1234_5678);
    assert_eq!(read_data::<i64>(key(*b"TEST", TYPE_U16, 2), &out).unwrap(), 0x1234);
    assert!(read_data::<bool>(key(*b"TEST", TYPE_FLAG, 1), &out).unwrap());
    let raw = read_data::<SMCVal>(key(*b"TEST", TYPE_U16, 2), &out).unwrap();
    assert_eq!(raw.data(), &[0x12, 0x34]);
    assert_eq!(raw.ty().as_u32(), TYPE_U16);
}

#[test]
fn read_data_hands_back_the_buffer_that_it_could_not_decode() {
    let out = answer(&[0x12, 0x34, 0x56, 0x78]);
    match read_data::<u8>(key(*b"TEST", TYPE_U16, 2), &out) {
        Err(SMCError::TryFrom(val)) => {
            assert_eq!(val.ty().as_u32(), TYPE_U16);
            assert_eq!(val.data(), &[0x12, 0x34]);
        }
        other => panic!("{other:?}"),
    }
    assert!(matches!(
        read_data::<u32>(key(*b"TEST", TYPE_U32, 3), &out),
        Err(SMCError::TryFrom(_))
    ));
}

#[test]
fn read_data_never_reads_behind_the_buffer() {
    let out = answer(&[7; 32]);
    for size in [33u32, 64, u32::MAX] {
        match read_data::<SMCVal>(key(*b"TEST", TYPE_U8, size), &out) {
            Err(SMCError::TryFrom(val)) => {
                assert_eq!(val.len(), 32);
                assert_eq!(val.data(), &[7; 32]);
            }
            other => panic!("{other:?}"),
        }
    }
    assert_eq!(read_data::<SMCVal>(key(*b"TEST", TYPE_U8, 32), &out).unwrap().len(), 32);
}

#[test]
fn write_data_builds_the_request() {
    let r = write_data(key(*b"FS! ", TYPE_U16, 2), CheckedBitmask(0x0102)).unwrap();
    assert_eq!(r.key, 0x4653_2120);
    assert_eq!(r.selector, SMCSelector::WriteKey);
    assert_eq!(r.key_info, blank_info(2));
    assert_eq!((r.result, r.status, r.data32), (0, 0, 0));
    let mut bytes = [0u8; 32];
    bytes[..2].copy_from_slice(&[1, 2]);
    assert_eq!(r.bytes, bytes);
}

#[test]
fn write_data_refuses_what_the_register_cannot_hold() {
    assert!(matches!(
        write_data(key(*b"FS! ", TYPE_U8, 1), CheckedBitmask(1)),
        Err(SMCError::TryInto)
    ));
    assert!(matches!(
        write_data(key(*b"FS! ", TYPE_U16, 4), CheckedBitmask(1)),
        Err(SMCError::TryInto)
    ));
    assert!(matches!(
        write_data(key(*b"FS! ", TYPE_U16, 33), CheckedBitmask(1)),
        Err(SMCError::TryInto)
    ));
}
