use zkedit::field::{bytes_to_field64, field64_to_bytes};

#[test]
fn test_serialization() {
    let data: Vec<u8> = (u8::MIN..=u8::MAX).collect();
    assert_eq!(
        data,
        field64_to_bytes(&bytes_to_field64(&data))
    );
}

#[test]
fn packs_four_bytes_little_endian() {
    let elems = bytes_to_field64(&[1, 2, 3, 4]);
    assert_eq!(elems, vec![0x0403_0201u64]);
}

#[test]
fn packs_short_trailing_group_zero_extended() {
    let elems = bytes_to_field64(&[1, 2, 3, 4, 5]);
    assert_eq!(elems, vec![0x0403_0201u64, 5u64]);
}

#[test]
fn empty_input_packs_to_nothing() {
    assert_eq!(bytes_to_field64(&[]), Vec::<u64>::new());
    assert_eq!(field64_to_bytes(&[]), Vec::<u8>::new());
}

#[test]
fn elements_survive_serialization_and_repacking() {
    let elems: Vec<u64> = vec![0, 1, 0xFFFF_FFFF, 0x0403_0201, 77];
    assert_eq!(bytes_to_field64(&field64_to_bytes(&elems)), elems);
}

#[test]
fn serializes_low_32_bits_little_endian() {
    let bytes = field64_to_bytes(&[0x0403_0201u64]);
    assert_eq!(bytes, vec![1u8, 2, 3, 4]);
}
