use smc::code::{TYPE_U16, TYPE_U8};
use smc::{Code, DataType, SMCVal};

fn store(front: &[u8]) -> [u8; 32] {
    let mut data = [0u8; 32];
    data[..front.len()].copy_from_slice(front);
    data
}

#[test]
fn default_buffer_is_empty() {
    let val = SMCVal::default();
    assert_eq!(val.len(), 0);
    assert!(val.is_empty());
    assert!(val.data().is_empty());
    assert_eq!(val.ty(), Code::default());
    assert_eq!(val.into_raw(), [0u8; 32]);
}

#[test]
fn new_buffer_shows_only_its_valid_bytes() {
    let val = SMCVal::new(Code::from_raw(TYPE_U16), 2, store(&[1, 2, 3, 4])).unwrap();
    assert_eq!(val.len(), 2);
    assert!(!val.is_empty());
    assert_eq!(val.data(), &[1, 2]);
    assert_eq!(val.ty().as_u32(), TYPE_U16);
    assert_eq!(val.into_raw(), store(&[1, 2, 3, 4]));
}

#[test]
fn new_buffer_takes_up_to_the_capacity() {
    assert!(SMCVal::new(Code::default(), 0, [0; 32]).is_some());
    assert_eq!(SMCVal::new(Code::default(), 32, [7; 32]).unwrap().data(), &[7u8; 32]);
    assert!(SMCVal::new(Code::default(), 33, [0; 32]).is_none());
    assert!(SMCVal::new(Code::default(), usize::MAX, [0; 32]).is_none());
}

#[test]
fn data_mut_writes_the_valid_bytes_only() {
    let mut val = SMCVal::new(Code::from_raw(TYPE_U8), 3, store(&[1, 2, 3, 4, 5])).unwrap();
    assert_eq!(val.data_mut().len(), 3);
    for b in val.data_mut() {
        *b = 9;
    }
    assert_eq!(val.data(), &[9, 9, 9]);
    assert_eq!(val.len(), 3);
    assert_eq!(val.ty().as_u32(), TYPE_U8);
    assert_eq!(val.into_raw(), store(&[9, 9, 9, 4, 5]));
}

#[test]
fn default_data_type_is_blank() {
    let info = DataType::default();
    assert_eq!(info.id, Code::default());
    assert_eq!(info.size, 0);
}

#[test]
fn data_types_compare_by_tag_and_size() {
    let a = DataType { id: Code::from_raw(TYPE_U8), size: 1 };
    assert_eq!(a, DataType { id: Code::from_raw(TYPE_U8), size: 1 });
    assert_ne!(a, DataType { id: Code::from_raw(TYPE_U8), size: 2 });
    assert_ne!(a, DataType { id: Code::from_raw(TYPE_U16), size: 1 });
}
