use ryke::bytes::{
    append, low16_of_sum, low32_of_sum, low8_of, read_u16, read_u32, read_u64, same_bytes, u16_to_be, u32_to_be,
    u64_to_be,
};

#[test]
fn numbers_are_written_in_network_order() {
    assert_eq!(u16_to_be(0x0102), [1, 2]);
    assert_eq!(u32_to_be(0x0102_0304), [1, 2, 3, 4]);
    assert_eq!(u64_to_be(0x0102_0304_0506_0708), [1, 2, 3, 4, 5, 6, 7, 8]);
}

#[test]
fn numbers_are_read_where_they_stand() {
    let s = [9u8, 1, 2, 3, 4, 5, 6, 7, 8];
    assert_eq!(read_u16(&s, 1), 0x0102);
    assert_eq!(read_u32(&s, 1), 0x0102_0304);
    assert_eq!(read_u64(&s, 1), 0x0102_0304_0506_0708);
    for x in [0u32, 1, 0x8000_0000, u32::MAX] {
        assert_eq!(read_u32(&u32_to_be(x), 0), x);
    }
}

#[test]
fn lengths_keep_their_low_bits() {
    assert_eq!(low8_of(0x1ff), 0xff);
    assert_eq!(low16_of_sum(0xffff, 1), 0);
    assert_eq!(low16_of_sum(4, 0x1_0002), 6);
    assert_eq!(low32_of_sum(28, 5), 33);
    assert_eq!(low32_of_sum(0xffff_ffff, 2), 1);
}

#[test]
fn byte_strings_join_and_compare() {
    let mut out = vec![1u8];
    append(&mut out, &[2, 3]);
    append(&mut out, &[]);
    assert_eq!(out, [1, 2, 3]);
    assert!(same_bytes(&out, &[1, 2, 3]));
    assert!(!same_bytes(&out, &[1, 2]));
    assert!(!same_bytes(&out, &[1, 2, 4]));
    assert!(same_bytes(&[], &[]));
}
