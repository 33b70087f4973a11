use protowirers::encode::{
    calc_capacity, encode, encode_length_delimited, encode_repeat, encode_struct, encode_tag,
    encode_variants, encode_wire_binary,
};
use protowirers::wire::{
    WireData, WireDataBit32, WireDataBit64, WireDataLengthDelimited, WireDataVarint, WireStruct,
};

#[test]
fn test_encode_variants() {
    {
        let mut c: Vec<u8> = Vec::new();
        encode_variants(&mut c, 1).unwrap();
        assert_eq!(c.len(), 1);
        assert_eq!(c, vec![0b00000001]);
    }
    {
        let mut c: Vec<u8> = Vec::new();
        encode_variants(&mut c, 300).unwrap();
        assert_eq!(c, vec![0b10101100, 0b00000010]);
    }
    {
        let mut c: Vec<u8> = Vec::new();
        encode_variants(&mut c, 12323412).unwrap();
        assert_eq!(c, vec![0b11010100, 0b10010100, 0b11110000, 0b00000101]);
    }
    {
        let mut c: Vec<u8> = Vec::new();
        encode_variants(&mut c, 0).unwrap();
        assert_eq!(c, vec![] as Vec<u8>);
    }
    {
        {
            let x: i64 = -6423;
            let mut c: Vec<u8> = Vec::new();
            encode_variants(&mut c, x as u128).unwrap();
            println!("{:?}", c);
        }
        {
            let x: i32 = -6423;
            let mut c: Vec<u8> = Vec::new();
            encode_variants(&mut c, x as u64 as u128).unwrap();
            println!("{:?}", c);
        }
    }
}

#[test]
fn test_encode_repeat() {
    {
        let mut v: Vec<u8> = Vec::new();
        encode_repeat(&mut v, vec![]).unwrap();
        assert_eq!(v, vec![] as Vec<u8>);
    }
    {
        let mut v: Vec<u8> = Vec::new();
        encode_repeat(&mut v, vec![1]).unwrap();
        assert_eq!(v, vec![0b00000001]);
    }
    {
        let mut v: Vec<u8> = Vec::new();
        encode_repeat(&mut v, vec![1, 300]).unwrap();
        assert_eq!(v, vec![0b00000001, 0b10101100, 0b00000010]);
    }
    {
        let mut v: Vec<u8> = Vec::new();
        encode_repeat(&mut v, vec![1, 300, 12323412]).unwrap();
        assert_eq!(
            v,
            vec![
                0b00000001, 0b10101100, 0b00000010, 0b11010100, 0b10010100, 0b11110000,
                0b00000101
            ]
        );
    }
}

#[test]
fn test_encode_length_delimited() {
    let mut c: Vec<u8> = Vec::new();
    encode_length_delimited(&mut c, vec![0b01111000, 0b01111000]).unwrap();
    assert_eq!(c.len(), 3);
    assert_eq!(c, vec![0b00000010, 0b01111000, 0b01111000]);
}

#[test]
fn encode_test_encode() {
    {
        let mut c: Vec<u8> = Vec::new();
        encode(&mut c, [0, 0, 0, 64]).unwrap();
        assert_eq!(c.len(), 4);
        assert_eq!(c, vec![0b00000000, 0b00000000, 0b00000000, 0b01000000]);
    }
    {
        let mut c: Vec<u8> = Vec::new();
        encode(&mut c, [0, 0, 0, 0, 0, 0, 240, 63]).unwrap();
        assert_eq!(c.len(), 8);
        assert_eq!(
            c,
            vec![
                0b00000000, 0b00000000, 0b00000000, 0b00000000, 0b00000000, 0b00000000,
                0b11110000, 0b00111111,
            ]
        );
    }
}

#[test]
fn test_encode_tag() {
    {
        let mut c: Vec<u8> = Vec::new();
        encode_tag(&mut c, 1, 0).unwrap();
        assert_eq!(c.len(), 1);
        assert_eq!(c, vec![0b00001000]);
    }
    {
        let mut c: Vec<u8> = Vec::new();
        encode_tag(&mut c, 3, 2).unwrap();
        assert_eq!(c.len(), 1);
        assert_eq!(c, vec![0b00011010]);
    }
    {
        let mut c: Vec<u8> = Vec::new();
        encode_tag(&mut c, 1000, 0).unwrap();
        assert_eq!(c.len(), 2);
        assert_eq!(c, vec![0b11000000, 0b0111110]);
    }
}

#[test]
fn test_encode_struct() {
    {
        let mut c: Vec<u8> = Vec::new();
        let ws = WireStruct::new(
            8,
            WireData::Bit32(WireDataBit32::new([
                0b00000000, 0b00000000, 0b00000000, 0b01000000,
            ])),
        );
        encode_struct(&mut c, ws).unwrap();
        assert_eq!(c.len(), 5);
        assert_eq!(
            c,
            vec![0b01000101, 0b00000000, 0b00000000, 0b00000000, 0b01000000]
        );
    }
    {
        let mut c: Vec<u8> = Vec::new();
        let ws = WireStruct::new(
            1,
            WireData::Bit64(WireDataBit64::new([
                0b00000000, 0b00000000, 0b00000000, 0b00000000, 0b00000000, 0b00000000,
                0b11110000, 0b00111111,
            ])),
        );
        encode_struct(&mut c, ws).unwrap();
        assert_eq!(c.len(), 9);
        assert_eq!(
            c,
            vec![
                0b00001001, 0b00000000, 0b00000000, 0b00000000, 0b00000000, 0b00000000,
                0b00000000, 0b11110000, 0b00111111,
            ]
        );
    }
    {
        let mut c: Vec<u8> = Vec::new();
        let ws = WireStruct::new(
            4,
            WireData::LengthDelimited(WireDataLengthDelimited::new(vec![
                0b01111000, 0b11100011, 0b10000001, 0b10000010, 0b01111000, 0b11100011,
                0b10000001, 0b10000010, 0b01111000, 0b11100011, 0b10000001, 0b10000010,
            ])),
        );
        encode_struct(&mut c, ws).unwrap();
        assert_eq!(c.len(), 14);
        assert_eq!(
            c,
            vec![
                0b00100010, 0b00001100, 0b01111000, 0b11100011, 0b10000001, 0b10000010,
                0b01111000, 0b11100011, 0b10000001, 0b10000010, 0b01111000, 0b11100011,
                0b10000001, 0b10000010,
            ]
        );
    }
    {
        let mut c: Vec<u8> = Vec::new();
        let ws = WireStruct::new(1000, WireData::Varint(WireDataVarint::new(10467)));
        encode_struct(&mut c, ws).unwrap();
        assert_eq!(c.len(), 4);
        assert_eq!(c, vec![0b11000000, 0b00111110, 0b11100011, 0b01010001]);
    }
}

#[test]
fn test_encode_wire_binary() {
    {
        let mut c: Vec<u8> = Vec::new();
        let ws = WireStruct::new(1000, WireData::Varint(WireDataVarint::new(10467)));
        encode_wire_binary(&mut c, vec![ws]).unwrap();
        assert_eq!(c.len(), 4);
        assert_eq!(c, vec![0b11000000, 0b00111110, 0b11100011, 0b01010001]);
    }
    {
        let mut c: Vec<u8> = Vec::new();
        let wss = vec![WireStruct::new(
            8,
            WireData::Bit32(WireDataBit32::new([
                0b00000000, 0b00000000, 0b00000000, 0b01000000,
            ])),
        )];
        encode_wire_binary(&mut c, wss).unwrap();
        assert_eq!(c.len(), 5);
        assert_eq!(
            c,
            vec![0b01000101, 0b00000000, 0b00000000, 0b00000000, 0b01000000]
        );
    }
    {
        let mut c: Vec<u8> = Vec::new();
        let wss = vec![
            WireStruct::new(
                8,
                WireData::Bit32(WireDataBit32::new([
                    0b00000000, 0b00000000, 0b00000000, 0b01000000,
                ])),
            ),
            WireStruct::new(
                1,
                WireData::Bit64(WireDataBit64::new([
                    0b00000000, 0b00000000, 0b00000000, 0b00000000, 0b00000000, 0b00000000,
                    0b11110000, 0b00111111,
                ])),
            ),
        ];
        encode_wire_binary(&mut c, wss).unwrap();
        assert_eq!(c.len(), 14);
        assert_eq!(
            c,
            vec![
                0b01000101, 0b00000000, 0b00000000, 0b00000000, 0b01000000, 0b00001001,
                0b00000000, 0b00000000, 0b00000000, 0b00000000, 0b00000000, 0b00000000,
                0b11110000, 0b00111111,
            ]
        );
    }
    {
        let mut c: Vec<u8> = Vec::new();
        let wss = vec![
            WireStruct::new(
                8,
                WireData::Bit32(WireDataBit32::new([
                    0b00000000, 0b00000000, 0b00000000, 0b01000000,
                ])),
            ),
            WireStruct::new(
                1,
                WireData::Bit64(WireDataBit64::new([
                    0b00000000, 0b00000000, 0b00000000, 0b00000000, 0b00000000, 0b00000000,
                    0b11110000, 0b00111111,
                ])),
            ),
        ];
        encode_wire_binary(&mut c, wss).unwrap();
        assert_eq!(c.len(), 14);
        assert_eq!(
            c,
            vec![
                0b01000101, 0b00000000, 0b00000000, 0b00000000, 0b01000000, 0b00001001,
                0b00000000, 0b00000000, 0b00000000, 0b00000000, 0b00000000, 0b00000000,
                0b11110000, 0b00111111,
            ]
        );
    }
}

#[test]
fn test_calc_capacity() {
    assert_eq!(calc_capacity(0), 0);

    assert_eq!(calc_capacity(0b1), 1);
    assert_eq!(calc_capacity(0b1111111), 1);

    assert_eq!(calc_capacity(0b10000000), 2);
    assert_eq!(calc_capacity(0b11111111), 2);
    assert_eq!(calc_capacity(0b11111111111111), 2);

    assert_eq!(calc_capacity(0b100000000000000), 3);
    assert_eq!(calc_capacity(0b111111111111111111111), 3);

    assert_eq!(calc_capacity(0b1000000000000000000000), 4);
    assert_eq!(calc_capacity(0b1111111111111111111111111111), 4);

    assert_eq!(calc_capacity(u64::MAX as u128), 10);
    assert_eq!(calc_capacity(u128::MAX), 19);

    assert_eq!(calc_capacity((1 << 7) - 1), 1);
    assert_eq!(calc_capacity(1 << 7), 2);
    assert_eq!(calc_capacity((1 << 14) - 1), 2);
    assert_eq!(calc_capacity(1 << 14), 3);
    assert_eq!(calc_capacity((1 << 21) - 1), 3);
    assert_eq!(calc_capacity(1 << 21), 4);
}

#[test]
fn bit_lenght() {
    let input: u64 = 0b11110000_00111111_u64;
    let zeros = input.leading_zeros();
    assert_eq!(zeros, 48);
    let l = u64::BITS - zeros;
    assert_eq!(l, 16);
}
