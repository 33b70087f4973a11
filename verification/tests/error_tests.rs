use protowirers::decode::decode_variants_slice;
use protowirers::error::{Error, LogicalType};
use protowirers::parser::Parser;
use protowirers::wire::{TypeLengthDelimited, TypeVairant, WireDataLengthDelimited, WireDataVarint};

#[test]
fn test_value_too_large_error() {
    let result = Parser::<u32>::parse(
        &WireDataVarint::new((u32::MAX as u128) + 1),
        TypeVairant::Uint32,
    );

    match result {
        Err(Error::ValueTooLarge { value, max }) => {
            assert_eq!(value, (u32::MAX as u128) + 1);
            assert_eq!(max, u32::MAX as u128);
        }
        _ => panic!("Expected a range error"),
    }
}

#[test]
fn test_parse_error_type_mismatch() {
    let wire_data = WireDataLengthDelimited::new(vec![0x41, 0x42]);
    let result: Result<Vec<u8>, Error> =
        Parser::<Vec<u8>>::parse(&wire_data, TypeLengthDelimited::WireString);

    match result {
        Err(Error::UnexpectedType { want, got }) => {
            assert_eq!(want, LogicalType::Bytes);
            assert_eq!(got, LogicalType::WireString);
        }
        _ => panic!("Expected a type-mismatch error"),
    }
}

#[test]
fn test_decode_error_unexpected_format() {
    let invalid_bytes = &[
        0b10000000, 0b10000100, 0b10101111, 0b01011111, 0b00000100, 0b10000110,
    ];
    let result = decode_variants_slice(invalid_bytes);

    match result {
        Err(Error::UnexpectedFormat) => {}
        _ => panic!("Expected a malformed-varint error"),
    }
}

#[test]
fn test_utf8_error() {
    let invalid_utf8 = vec![0xFF, 0xFE, 0xFD];
    let wire_data = WireDataLengthDelimited::new(invalid_utf8);
    let result = Parser::<String>::parse(&wire_data, TypeLengthDelimited::WireString);

    match result {
        Err(Error::InvalidUtf8) => {}
        _ => panic!("Expected UTF-8 error"),
    }
}

#[test]
fn test_error_display() {
    let err = Error::ValueTooLarge {
        value: 1000,
        max: 100,
    };

    let msg = err.message();
    assert!(msg.contains("value too large"));
    assert!(msg.contains("1000"));
    assert!(msg.contains("100"));
}

#[test]
fn test_decode_error_variants() {
    let err1 = Error::UnexpectedFormat;
    let err2 = Error::UnexpectedWireDataValue(99);

    match err1 {
        Error::UnexpectedFormat => {}
        _ => panic!("Unexpected error variant"),
    }

    match err2 {
        Error::UnexpectedWireDataValue(val) => {
            assert_eq!(val, 99);
        }
        _ => panic!("Unexpected error variant"),
    }
}
