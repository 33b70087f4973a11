use protowirers::decode::{decode_variants, decode_wire_binary};
use protowirers::encode::{encode_variants, encode_wire_binary};
use protowirers::error::Error;
use protowirers::parser::{LengthDelimitedToValue, Parser, VariantEnum};
use protowirers::reader::read_repeat;
use protowirers::wire::{
    AllowedPakcedType, Proto, TypeLengthDelimited, TypeVairant, WireData, WireDataLengthDelimited,
    WireDataVarint, WireStruct,
};

#[test]
fn varint_one_fifty() {
    let mut out: Vec<u8> = Vec::new();
    encode_variants(&mut out, 150).unwrap();
    assert_eq!(out, vec![0x96, 0x01]);
    let (value, end) = decode_variants(&out, 0).unwrap();
    assert_eq!(value, 150);
    assert_eq!(end, 2);
}

#[test]
fn varint_zero_encodes_empty_decodes_from_zero_byte() {
    let mut out: Vec<u8> = Vec::new();
    encode_variants(&mut out, 0).unwrap();
    assert_eq!(out, vec![] as Vec<u8>);
    let (value, end) = decode_variants(&[0x00], 0).unwrap();
    assert_eq!(value, 0);
    assert_eq!(end, 1);
}

#[test]
fn two_field_message_bytes() {
    // field 1 = uint32 2, field 2 = zigzag-int64 -10
    let fields = vec![WireStruct::from_u32(1, 2), WireStruct::from_i64(2, -10)];
    let mut out: Vec<u8> = Vec::new();
    encode_wire_binary(&mut out, fields).unwrap();
    assert_eq!(out, vec![0x08, 0x02, 0x10, 0x13]);

    let decoded = decode_wire_binary(&out).unwrap();
    assert_eq!(decoded.len(), 2);
    assert_eq!(decoded[0].field_number(), 1);
    match decoded[0].wire_type() {
        WireData::Varint(v) => {
            assert_eq!(
                Parser::<u32>::parse(&v, TypeVairant::Uint32).unwrap(),
                2
            );
        }
        _ => panic!("expected a varint payload"),
    }
    assert_eq!(decoded[1].field_number(), 2);
    match decoded[1].wire_type() {
        WireData::Varint(v) => {
            assert_eq!(
                Parser::<i64>::parse(&v, TypeVairant::Sint64).unwrap(),
                -10
            );
        }
        _ => panic!("expected a varint payload"),
    }
}

#[test]
fn zero_valued_fields_are_elided() {
    let fields = vec![
        WireStruct::from_u32(1, 0),
        WireStruct::from_u32(2, 7),
        WireStruct::from_string(3, String::new()),
    ];
    let mut out: Vec<u8> = Vec::new();
    encode_wire_binary(&mut out, fields).unwrap();
    // only field 2 reaches the wire; decoding sees the others as absent
    assert_eq!(out, vec![0x10, 0x07]);
    let decoded = decode_wire_binary(&out).unwrap();
    assert_eq!(decoded.len(), 1);
    assert_eq!(decoded[0].field_number(), 2);
}

#[test]
fn packed_zigzag_array_roundtrip() {
    let values: Vec<i64> = vec![1000, i64::MAX, i64::MIN];
    let ty = TypeLengthDelimited::PackedRepeatedFields(AllowedPakcedType::Variant(
        TypeVairant::Sint64,
    ));
    let payload = values.clone().into_length_delimited(ty).unwrap();

    // one length-delimited field, no interleaved tags
    let field = WireStruct::new(
        9,
        WireData::LengthDelimited(WireDataLengthDelimited::new(payload)),
    );
    let mut out: Vec<u8> = Vec::new();
    encode_wire_binary(&mut out, vec![field]).unwrap();

    let decoded = decode_wire_binary(&out).unwrap();
    assert_eq!(decoded.len(), 1);
    match decoded[0].wire_type() {
        WireData::LengthDelimited(ld) => {
            let got: Vec<i64> = Parser::<Vec<i64>>::parse(&ld, ty).unwrap();
            assert_eq!(got, values);
        }
        _ => panic!("expected a length-delimited payload"),
    }
}

#[test]
fn truncated_payload_is_detected() {
    // field 1 declares a ten-byte payload but only three bytes follow
    let bytes: &[u8] = &[0x0A, 0x0A, 0x41, 0x42, 0x43];
    match decode_wire_binary(bytes) {
        Err(Error::Truncated { needed, remaining }) => {
            assert_eq!(needed, 10);
            assert_eq!(remaining, 3);
        }
        _ => panic!("expected a truncation error"),
    }
}

#[test]
fn unsupported_wire_type_is_rejected() {
    // field 1 with the historical group discriminant 3
    let bytes: &[u8] = &[0x0B];
    match decode_wire_binary(bytes) {
        Err(Error::UnexpectedWireDataValue(wt)) => assert_eq!(wt, 3),
        _ => panic!("expected an unsupported-discriminant error"),
    }
    // and discriminant 4
    let bytes: &[u8] = &[0x0C];
    match decode_wire_binary(bytes) {
        Err(Error::UnexpectedWireDataValue(wt)) => assert_eq!(wt, 4),
        _ => panic!("expected an unsupported-discriminant error"),
    }
}

#[test]
fn packed_run_misalignment_is_rejected() {
    // declared three payload bytes, but the second element ends at four
    let bytes: &[u8] = &[0x03, 0x96, 0x01, 0x96, 0x01];
    match read_repeat(bytes, 0) {
        Err(Error::UnexpectedRepeatSize(got, want)) => {
            assert_eq!(got, 4);
            assert_eq!(want, 3);
        }
        _ => panic!("expected a repeat-size error"),
    }
}

#[test]
fn int32_out_of_range_is_rejected() {
    let too_wide: u128 = 1u128 << 33;
    match Parser::<i32>::parse(&WireDataVarint::new(too_wide), TypeVairant::Int32) {
        Err(Error::ValueOutOfRange { found, lower, upper }) => {
            assert_eq!(found, 1i128 << 33);
            assert_eq!(lower, i32::MIN as i128);
            assert_eq!(upper, i32::MAX as i128);
        }
        _ => panic!("expected a range error"),
    }
    // a negative int32 consumes the same bytes as an int64 on the wire
    let negative: u128 = u64::MAX as u128;
    assert_eq!(
        Parser::<i32>::parse(&WireDataVarint::new(negative), TypeVairant::Int32).unwrap(),
        -1
    );
}

#[test]
fn string_field_roundtrip() {
    let field = WireStruct::from_string(4, "abc".to_string());
    let mut out: Vec<u8> = Vec::new();
    encode_wire_binary(&mut out, vec![field]).unwrap();
    assert_eq!(out, vec![0x22, 0x03, 0x61, 0x62, 0x63]);
    let decoded = decode_wire_binary(&out).unwrap();
    match decoded[0].wire_type() {
        WireData::LengthDelimited(ld) => {
            let s = Parser::<String>::parse(&ld, TypeLengthDelimited::WireString).unwrap();
            assert_eq!(s, "abc");
        }
        _ => panic!("expected a length-delimited payload"),
    }
}

#[derive(Clone, Copy, PartialEq, Eq, Debug)]
enum Color {
    Red,
    Green,
    Blue,
}

impl VariantEnum for Color {
    fn from_i32(input: i32) -> Color {
        match input {
            0 => Color::Red,
            1 => Color::Green,
            _ => Color::Blue,
        }
    }

    fn into_i32(self) -> i32 {
        match self {
            Color::Red => 0,
            Color::Green => 1,
            Color::Blue => 2,
        }
    }
}

#[test]
fn enum_mapping_roundtrip() {
    let parsed: Color = Parser::<Color>::parse(&WireDataVarint::new(1), TypeVairant::Enum)
        .unwrap();
    assert_eq!(parsed, Color::Green);
    let wire: WireDataVarint = Parser::<Color>::from(Color::Blue, TypeVairant::Enum).unwrap();
    assert_eq!(wire.value, 2);
    assert!(
        Parser::<Color>::parse(&WireDataVarint::new(u128::MAX), TypeVairant::Enum).is_err()
    );
}

struct Note {
    text: String,
}

impl Proto for Note {
    fn parse(bytes: &[u8]) -> Result<Note, Error> {
        let fields = decode_wire_binary(bytes)?;
        let mut text = String::new();
        for ws in &fields {
            if ws.field_number() == 1 {
                if let WireData::LengthDelimited(ld) = ws.wire_type() {
                    text = Parser::<String>::parse(&ld, TypeLengthDelimited::WireString)?;
                }
            }
        }
        Ok(Note { text })
    }

    fn bytes(&self) -> Result<Vec<u8>, Error> {
        let mut out: Vec<u8> = Vec::new();
        encode_wire_binary(
            &mut out,
            vec![WireStruct::from_string(1, self.text.clone())],
        )?;
        Ok(out)
    }
}

#[test]
fn embedded_message_roundtrip_and_truncation() {
    let inner = Note {
        text: "hello".to_string(),
    };
    let inner_bytes = inner.bytes().unwrap();
    assert_eq!(inner_bytes, vec![0x0A, 0x05, 0x68, 0x65, 0x6C, 0x6C, 0x6F]);

    // a valid nested frame decodes through the embedded-message conversion
    let ld = WireDataLengthDelimited::new(inner_bytes.clone());
    let back: Note = Parser::<Note>::parse(&ld, TypeLengthDelimited::EmbeddedMessages).unwrap();
    assert_eq!(back.text, "hello");

    // the same payload with its last byte cut off fails to decode
    let mut cut = inner_bytes.clone();
    cut.pop();
    let ld_cut = WireDataLengthDelimited::new(cut);
    assert!(Parser::<Note>::parse(&ld_cut, TypeLengthDelimited::EmbeddedMessages).is_err());
}
