use protowirers::zigzag::{decode_raw, encode};

#[test]
fn zigzag_test_encode() {
    assert_eq!(encode(0), 0_u32);
    assert_eq!(encode(-1), 1_u32);
    assert_eq!(encode(1), 2_u32);
    assert_eq!(encode(-2), 3_u32);
    assert_eq!(encode(2), 4_u32);
    assert_eq!(encode(2147483647), 4294967294_u32);
    assert_eq!(encode(-2147483648), 4294967295_u32);
    assert_eq!(encode(2147483647_i32), 4294967294);
    assert_eq!(encode(-2147483648_i32), 4294967295);
    assert_eq!(encode(-9223372036854775808_i64), 18446744073709551615);
    assert_eq!(encode(9223372036854775807_i64), 18446744073709551614);
}

#[test]
fn test_decode_zigzag() {
    assert_eq!(decode_raw(0), 0);
    assert_eq!(decode_raw(1), -1);
    assert_eq!(decode_raw(2), 1);
    assert_eq!(decode_raw(3), -2);
    assert_eq!(decode_raw(4), 2);
    assert_eq!(decode_raw(4294967294), 2147483647);
    assert_eq!(decode_raw(4294967295), -2147483648);
}
