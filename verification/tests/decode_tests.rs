use protowirers::decode::{
    decode_32bit, decode_64bit, decode_length_delimited, decode_struct, decode_tag,
    decode_variants, decode_variants_slice, decode_wire_binary,
};
use protowirers::wire::{
    WireData, WireDataBit32, WireDataBit64, WireDataLengthDelimited, WireDataVarint, WireStruct,
};

#[test]
fn test_decode_variants() {
    {
        let bytes: &[u8] = &[0b00000001];
        let (x, end) = decode_variants(bytes, 0).unwrap();
        assert_eq!(x, 1);
        assert_eq!(end, 1);
    }
    {
        let bytes: &[u8] = &[0b10101100, 0b00000010];
        let (x, end) = decode_variants(bytes, 0).unwrap();
        assert_eq!(x, 300);
        assert_eq!(end, 2);
    }
}

#[test]
fn test_decode_tag() {
    {
        let bytes: &[u8] = &[0b00001000];
        let (got, end) = decode_tag(bytes, 0).unwrap();
        assert_eq!(got, (1, 0));
        assert_eq!(end, 1);
    }
    {
        let bytes: &[u8] = &[0b00011010];
        let (got, end) = decode_tag(bytes, 0).unwrap();
        assert_eq!(got, (3, 2));
        assert_eq!(end, 1);
    }
    {
        let bytes: &[u8] = &[0b11000000, 0b0111110];
        let (got, end) = decode_tag(bytes, 0).unwrap();
        assert_eq!(got, (1000, 0));
        assert_eq!(end, 2);
    }
}

#[test]
fn test_decode_length_delimited() {
    let bytes: &[u8] = &[0b00000010, 0b01111000, 0b01111000];
    let (got, end) = decode_length_delimited(bytes, 0).unwrap();
    let expected = vec![0b01111000, 0b01111000];
    assert_eq!(got, expected);
    assert_eq!(end, 3);
}

#[test]
fn test_decode_variants_slice() {
    {
        let bytes: &[u8] = &[
            0b00000001, 0b00000010, 0b11101000, 0b00000111, 0b00000100, 0b00000101,
        ];
        let got = decode_variants_slice(bytes).unwrap();
        assert_eq!(got, vec![1, 2, 1000, 4, 5]);
    }
    {
        let bytes: &[u8] = &[
            0b10000000, 0b10000100, 0b10101111, 0b01011111, 0b00000100, 0b10000110,
        ];
        assert!(decode_variants_slice(bytes).is_err());
    }
}

#[test]
fn test_decode_32bit() {
    let bytes: &[u8] = &[0b00000000, 0b00000000, 0b00000000, 0b01000000];
    let (got, end) = decode_32bit(bytes, 0).unwrap();
    assert_eq!(got, [0, 0, 0, 64]);
    assert_eq!(end, 4);
}

#[test]
fn test_decode_64bit() {
    let bytes: &[u8] = &[
        0b00000000, 0b00000000, 0b00000000, 0b00000000, 0b00000000, 0b00000000, 0b11110000,
        0b00111111,
    ];
    let (got, end) = decode_64bit(bytes, 0).unwrap();
    assert_eq!(got, [0, 0, 0, 0, 0, 0, 240, 63]);
    assert_eq!(end, 8);
}

#[test]
fn test_decode_struct() {
    {
        let bytes: &[u8] = &[0b01000101, 0b00000000, 0b00000000, 0b00000000, 0b01000000];
        let (got, end) = decode_struct(bytes, 0).unwrap();
        let expected = WireStruct::new(
            8,
            WireData::Bit32(WireDataBit32::new([
                0b00000000, 0b00000000, 0b00000000, 0b01000000,
            ])),
        );
        assert_eq!(got, expected);
        assert_eq!(end, 5);
    }
    {
        let bytes: &[u8] = &[
            0b00001001, 0b00000000, 0b00000000, 0b00000000, 0b00000000, 0b00000000, 0b00000000,
            0b11110000, 0b00111111,
        ];
        let (got, end) = decode_struct(bytes, 0).unwrap();
        let expected = WireStruct::new(
            1,
            WireData::Bit64(WireDataBit64::new([
                0b00000000, 0b00000000, 0b00000000, 0b00000000, 0b00000000, 0b00000000,
                0b11110000, 0b00111111,
            ])),
        );
        assert_eq!(got, expected);
        assert_eq!(end, 9);
    }
    {
        let bytes: &[u8] = &[
            0b00100010, 0b00001100, 0b01111000, 0b11100011, 0b10000001, 0b10000010, 0b01111000,
            0b11100011, 0b10000001, 0b10000010, 0b01111000, 0b11100011, 0b10000001, 0b10000010,
        ];
        let (got, end) = decode_struct(bytes, 0).unwrap();
        let expected = WireStruct::new(
            4,
            WireData::LengthDelimited(WireDataLengthDelimited::new(vec![
                0b01111000, 0b11100011, 0b10000001, 0b10000010, 0b01111000, 0b11100011,
                0b10000001, 0b10000010, 0b01111000, 0b11100011, 0b10000001, 0b10000010,
            ])),
        );
        assert_eq!(got, expected);
        assert_eq!(end, 14);
    }
    {
        let bytes: &[u8] = &[0b11000000, 0b00111110, 0b11100011, 0b01010001];
        let (got, end) = decode_struct(bytes, 0).unwrap();
        let expected = WireStruct::new(1000, WireData::Varint(WireDataVarint::new(10467)));
        assert_eq!(got, expected);
        assert_eq!(end, 4);
    }
}

#[test]
fn test_decode_wire_binary() {
    {
        let bytes: &[u8] = &[0b01000101, 0b00000000, 0b00000000, 0b00000000, 0b01000000];
        let got = decode_wire_binary(bytes).unwrap();
        let expected = vec![WireStruct::new(
            8,
            WireData::Bit32(WireDataBit32::new([
                0b00000000, 0b00000000, 0b00000000, 0b01000000,
            ])),
        )];
        assert_eq!(got, expected);
    }
    {
        let bytes: &[u8] = &[
            0b01000101, 0b00000000, 0b00000000, 0b00000000, 0b01000000, 0b00001001, 0b00000000,
            0b00000000, 0b00000000, 0b00000000, 0b00000000, 0b00000000, 0b11110000, 0b00111111,
        ];
        let got = decode_wire_binary(bytes).unwrap();
        let expected = vec![
            WireStruct::new(
                8,
                WireData::Bit32(WireDataBit32::new([
                    0b00000000, 0b00000000, 0b00000000, 0b01000000,
                ])),
            ),
            WireStruct::new(
                1,
                WireData::Bit64(WireDataBit64::new([
                    0b00000000, 0b00000000, 0b00000000, 0b00000000, 0b00000000, 0b00000000,
                    0b11110000, 0b00111111,
                ])),
            ),
        ];
        assert_eq!(got, expected);
    }
    {
        let bytes: &[u8] = &[
            0b01000101, 0b00000000, 0b00000000, 0b00000000, 0b01000000, 0b00001001, 0b00000000,
            0b00000000, 0b00000000, 0b00000000, 0b00000000, 0b00000000, 0b11110000,
        ];
        assert!(decode_wire_binary(bytes).is_err());
    }
}

#[test]
fn decode_check() {
    {
        let mut sum = 0;
        sum += 2;
        println!("sum={}", sum);
        sum = 0b00101100 + (sum << 7);
        println!("sum={}", sum);
    }
    {
        println!("{:08b}", 0b10000001 & 7);
        println!("{:08b}", 0b10000101 & 7);
    }
    {
        let encode = |n: i32| {
            println!(
                "{:32}:{:032b}, {:032b}, {:032b}={}",
                n,
                n,
                n << 1,
                n >> 31,
                (n << 1) ^ (n >> 31)
            )
        };
        let n = 1;
        encode(n);
        let n = -1;
        encode(n);
        let n = -2;
        encode(n);
        let n = 2;
        encode(n);
        let n = 3;
        encode(n);
        let n = -3;
        encode(n);
    }
    {
        let decode = |n: i32| {
            println!(
                "{:32}:{:032b}, {:032b}, {:032b}={}",
                n,
                n,
                n >> 1,
                -(n & 1),
                (n >> 1) ^ -(n & 1)
            )
        };
        let n = 1;
        decode(n);
        let n = 2;
        decode(n);
        let n = 3;
        decode(n);
        let n = 4;
        decode(n);
        let n = 5;
        decode(n);
        let n = 6;
        decode(n);
    }
    {
        let bytes: &[u8] = &[0b11000000, 0b00111110, 0b11100011, 0b01010001];
        println!("{:?}", bytes.len());
        let r = decode_variants(bytes, 0);
        println!("result={:?}", r);
        let r = decode_variants(bytes, 2);
        println!("result={:?}", r);
        let r = decode_variants(bytes, 4);
        println!("result={:?}", r);
    }
}
