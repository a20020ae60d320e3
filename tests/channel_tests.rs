use zune_core::bit_depth::BitType;
use zune_frame::channel::Channel;
use zune_frame::errors::ImageErrors;

#[test]
fn reinterpret_same_kind_gives_all_samples() {
    let mut c = Channel::new::<u16>();
    c.extend::<u16>(&[3, 65535, 0]).unwrap();
    assert_eq!(c.reinterpret_as::<u16>().unwrap(), &[3, 65535, 0]);
    assert_eq!(c.len(), 3);
    assert_eq!(c.get_bit_type(), BitType::U16);
}

#[test]
fn reinterpret_other_kind_fails() {
    let c = Channel::new_with_bit_type(4, BitType::U8);
    assert!(matches!(c.reinterpret_as::<u16>(), Err(ImageErrors::TypeMismatch(BitType::U8, BitType::U16))));
    let f = Channel::new_with_bit_type(2, BitType::F32);
    assert!(matches!(f.reinterpret_as::<u8>(), Err(ImageErrors::TypeMismatch(BitType::F32, BitType::U8))));
    assert_eq!(f.len(), 2);
}

#[test]
fn new_with_bit_type_is_zeroed() {
    let c = Channel::new_with_bit_type(3, BitType::U16);
    assert_eq!(c.reinterpret_as::<u16>().unwrap(), &[0, 0, 0]);
    assert!(Channel::new_with_bit_type(0, BitType::U8).is_empty());
}

#[test]
fn push_checks_the_kind() {
    let mut c = Channel::new::<u8>();
    c.push(7u8).unwrap();
    assert!(matches!(c.push(7u16), Err(ImageErrors::TypeMismatch(BitType::U8, BitType::U16))));
    assert!(matches!(c.extend::<u16>(&[1, 2]), Err(ImageErrors::TypeMismatch(BitType::U8, BitType::U16))));
    assert_eq!(c.reinterpret_as::<u8>().unwrap(), &[7]);
}

#[test]
fn from_vec_keeps_samples() {
    let c = Channel::from_vec(vec![1u16, 2, 3]);
    assert_eq!(c.get_bit_type(), BitType::U16);
    assert_eq!(c.reinterpret_as::<u16>().unwrap(), &[1, 2, 3]);
}

#[test]
fn reinterpret_mut_writes_through_and_checks_kind() {
    let mut c = Channel::new_with_bit_type(3, BitType::U8);
    {
        let s = c.reinterpret_as_mut::<u8>().unwrap();
        s[1] = 9;
    }
    assert_eq!(c.reinterpret_as::<u8>().unwrap(), &[0, 9, 0]);
    assert!(matches!(c.reinterpret_as_mut::<u16>(), Err(ImageErrors::TypeMismatch(BitType::U8, BitType::U16))));
}
