use vstd::prelude::*;

use crate::error::Error;
use crate::zigzag::{zigzag_encode32, zigzag_encode64, ZigZag};

verus! {

broadcast use vstd::array::group_array_axioms;

/// The capability an embeddable message type offers the codec: it can be
/// decoded from a complete byte frame and encoded back into one.  Impls are
/// supplied by the caller (usually generated code), so nothing is promised
/// of them here.
pub trait Proto: Sized {
    fn parse(bytes: &[u8]) -> Result<Self, Error>;

    fn bytes(&self) -> Result<Vec<u8>, Error>;
}

/// Identifies a field slot within one message frame.  Wider than 32 bits so
/// that malformed input can be carried around before validation.
pub type FieldNumber = u128;

/// Mathematical model of a wire value: the four payload shapes over plain
/// sequences of bytes.
pub enum SpecWireData {
    Varint(u128),
    Bit64(Seq<u8>),
    LengthDelimited(Seq<u8>),
    Bit32(Seq<u8>),
}

/// Mathematical model of one tagged field: a field number and a payload.
pub struct SpecWireStruct {
    pub field_number: FieldNumber,
    pub data: SpecWireData,
}

/// The wire-type discriminant stored in a tag for each payload shape.
/// Discriminants 3 and 4 (historical group markers) are unsupported.
pub open spec fn wire_type_num(d: SpecWireData) -> u128 {
    match d {
        SpecWireData::Varint(_) => 0,
        SpecWireData::Bit64(_) => 1,
        SpecWireData::LengthDelimited(_) => 2,
        SpecWireData::Bit32(_) => 5,
    }
}

/// The payload shapes carry fixed or machine-bounded byte counts.
pub open spec fn wire_data_wf(d: SpecWireData) -> bool {
    match d {
        SpecWireData::Varint(_) => true,
        SpecWireData::Bit64(s) => s.len() == 8,
        SpecWireData::LengthDelimited(s) => s.len() <= usize::MAX,
        SpecWireData::Bit32(s) => s.len() == 4,
    }
}

/// Every byte of the sequence is zero.
pub open spec fn all_zero(s: Seq<u8>) -> bool {
    forall|i: int| 0 <= i < s.len() ==> s[i] == 0
}

/// A wire value is empty when it holds its shape's zero value; empty fields
/// are elided from encoded output.
pub open spec fn wire_data_is_empty(d: SpecWireData) -> bool {
    match d {
        SpecWireData::Varint(v) => v == 0,
        SpecWireData::Bit64(s) => all_zero(s),
        SpecWireData::LengthDelimited(s) => s.len() == 0,
        SpecWireData::Bit32(s) => all_zero(s),
    }
}

/// Arrays of bytes are equal exactly when their views are.
proof fn lemma_bytes8_eq(a: [u8; 8], b: [u8; 8])
    ensures
        (a == b) <==> (a@ == b@),
{
    broadcast use vstd::array::group_array_axioms;

    if a@ == b@ {
        assert(a =~= b);
    }
}

/// Arrays of bytes are equal exactly when their views are.
proof fn lemma_bytes4_eq(a: [u8; 4], b: [u8; 4])
    ensures
        (a == b) <==> (a@ == b@),
{
    broadcast use vstd::array::group_array_axioms;

    if a@ == b@ {
        assert(a =~= b);
    }
}

/// A varint payload, up to 128 bits wide.
#[derive(Debug, Clone, Copy, PartialEq, Eq, Structural)]
pub struct WireDataVarint {
    pub value: u128,
}

impl WireDataVarint {
    pub fn new(v: u128) -> (r: Self)
        ensures
            r.value == v,
    {
        WireDataVarint { value: v }
    }
}

/// An eight-byte little-endian payload.
#[derive(Debug, Clone, Copy)]
pub struct WireDataBit64 {
    pub value: [u8; 8],
}

impl PartialEq for WireDataBit64 {
    fn eq(&self, other: &Self) -> (r: bool)
    {
        let r: bool = self.value[0] == other.value[0] && self.value[1] == other.value[1]
            && self.value[2] == other.value[2] && self.value[3] == other.value[3]
            && self.value[4] == other.value[4] && self.value[5] == other.value[5]
            && self.value[6] == other.value[6] && self.value[7] == other.value[7];
        proof {
            lemma_bytes8_eq(self.value, other.value);
            if r {
                assert forall|i: int| 0 <= i < 8 implies self.value@[i] == other.value@[i] by {
                    if i == 0 {
                    } else if i == 1 {
                    } else if i == 2 {
                    } else if i == 3 {
                    } else if i == 4 {
                    } else if i == 5 {
                    } else if i == 6 {
                    } else {
                        assert(i == 7);
                    }
                }
                assert(self.value@ =~= other.value@);
            } else {
                if self.value@ == other.value@ {
                    assert(self.value@[0] == other.value@[0]);
                    assert(self.value@[1] == other.value@[1]);
                    assert(self.value@[2] == other.value@[2]);
                    assert(self.value@[3] == other.value@[3]);
                    assert(self.value@[4] == other.value@[4]);
                    assert(self.value@[5] == other.value@[5]);
                    assert(self.value@[6] == other.value@[6]);
                    assert(self.value@[7] == other.value@[7]);
                }
            }
        }
        r
    }
}

impl Eq for WireDataBit64 {

}

impl vstd::std_specs::cmp::PartialEqSpecImpl for WireDataBit64 {
    open spec fn obeys_eq_spec() -> bool {
        true
    }

    open spec fn eq_spec(&self, other: &Self) -> bool {
        self.value == other.value
    }
}

impl WireDataBit64 {
    pub fn new(v: [u8; 8]) -> (r: Self)
        ensures
            r.value == v,
    {
        WireDataBit64 { value: v }
    }
}

/// A four-byte little-endian payload.
#[derive(Debug, Clone, Copy)]
pub struct WireDataBit32 {
    pub value: [u8; 4],
}

impl PartialEq for WireDataBit32 {
    fn eq(&self, other: &Self) -> (r: bool)
    {
        let r: bool = self.value[0] == other.value[0] && self.value[1] == other.value[1]
            && self.value[2] == other.value[2] && self.value[3] == other.value[3];
        proof {
            lemma_bytes4_eq(self.value, other.value);
            if r {
                assert forall|i: int| 0 <= i < 4 implies self.value@[i] == other.value@[i] by {
                    if i == 0 {
                    } else if i == 1 {
                    } else if i == 2 {
                    } else {
                        assert(i == 3);
                    }
                }
                assert(self.value@ =~= other.value@);
            } else {
                if self.value@ == other.value@ {
                    assert(self.value@[0] == other.value@[0]);
                    assert(self.value@[1] == other.value@[1]);
                    assert(self.value@[2] == other.value@[2]);
                    assert(self.value@[3] == other.value@[3]);
                }
            }
        }
        r
    }
}

impl Eq for WireDataBit32 {

}

impl vstd::std_specs::cmp::PartialEqSpecImpl for WireDataBit32 {
    open spec fn obeys_eq_spec() -> bool {
        true
    }

    open spec fn eq_spec(&self, other: &Self) -> bool {
        self.value == other.value
    }
}

impl WireDataBit32 {
    pub fn new(v: [u8; 4]) -> (r: Self)
        ensures
            r.value == v,
    {
        WireDataBit32 { value: v }
    }
}

/// A length-delimited payload: an owned byte blob.
#[derive(Debug)]
pub struct WireDataLengthDelimited {
    pub value: Vec<u8>,
}

impl WireDataLengthDelimited {
    pub fn new(v: Vec<u8>) -> (r: Self)
        ensures
            r.value@ == v@,
    {
        WireDataLengthDelimited { value: v }
    }
}

impl Clone for WireDataLengthDelimited {
    fn clone(&self) -> (r: Self)
        ensures
            r.value@ == self.value@,
    {
        WireDataLengthDelimited { value: vstd::slice::slice_to_vec(self.value.as_slice()) }
    }
}

impl PartialEq for WireDataLengthDelimited {
    fn eq(&self, other: &Self) -> (r: bool)
    {
        eq_bytes(&self.value, &other.value)
    }
}

impl Eq for WireDataLengthDelimited {

}

impl vstd::std_specs::cmp::PartialEqSpecImpl for WireDataLengthDelimited {
    open spec fn obeys_eq_spec() -> bool {
        true
    }

    open spec fn eq_spec(&self, other: &Self) -> bool {
        self.value@ == other.value@
    }
}

/// Byte-for-byte comparison of two byte vectors.
pub fn eq_bytes(a: &Vec<u8>, b: &Vec<u8>) -> (r: bool)
    ensures
        r == (a@ == b@),
{
    if a.len() != b.len() {
        proof {
            assert(a@ != b@) by {
                assert(a@.len() != b@.len());
            }
        }
        return false;
    }
    let n: usize = a.len();
    let mut i: usize = 0;
    while i < n
        invariant
            i <= n,
            n == a@.len() && n == b@.len(),
            forall|j: int| 0 <= j < i ==> a@[j] == b@[j],
        decreases n - i,
    {
        if a[i] != b[i] {
            return false;
        }
        i = i + 1;
    }
    proof {
        assert(a@ =~= b@);
    }
    true
}

/// One of the four physical payload shapes that can follow a tag.
#[derive(Debug)]
pub enum WireData {
    Varint(WireDataVarint),
    Bit64(WireDataBit64),
    LengthDelimited(WireDataLengthDelimited),
    Bit32(WireDataBit32),
}

impl View for WireData {
    type V = SpecWireData;

    open spec fn view(&self) -> SpecWireData {
        match self {
            WireData::Varint(v) => SpecWireData::Varint(v.value),
            WireData::Bit64(b) => SpecWireData::Bit64(b.value@),
            WireData::LengthDelimited(l) => SpecWireData::LengthDelimited(l.value@),
            WireData::Bit32(b) => SpecWireData::Bit32(b.value@),
        }
    }
}

impl Clone for WireData {
    fn clone(&self) -> (r: Self)
        ensures
            r@ == self@,
    {
        match self {
            WireData::Varint(v) => WireData::Varint(WireDataVarint { value: v.value }),
            WireData::Bit64(b) => WireData::Bit64(WireDataBit64 { value: b.value }),
            WireData::LengthDelimited(l) => WireData::LengthDelimited(l.clone()),
            WireData::Bit32(b) => WireData::Bit32(WireDataBit32 { value: b.value }),
        }
    }
}

impl PartialEq for WireData {
    fn eq(&self, other: &Self) -> (r: bool)
    {
        match (self, other) {
            (WireData::Varint(a), WireData::Varint(b)) => a.value == b.value,
            (WireData::Bit64(a), WireData::Bit64(b)) => {
                let r: bool = *a == *b;
                proof {
                    lemma_bytes8_eq(a.value, b.value);
                }
                r
            },
            (WireData::LengthDelimited(a), WireData::LengthDelimited(b)) => eq_bytes(
                &a.value,
                &b.value,
            ),
            (WireData::Bit32(a), WireData::Bit32(b)) => {
                let r: bool = *a == *b;
                proof {
                    lemma_bytes4_eq(a.value, b.value);
                }
                r
            },
            _ => false,
        }
    }
}

impl Eq for WireData {

}

impl vstd::std_specs::cmp::PartialEqSpecImpl for WireData {
    open spec fn obeys_eq_spec() -> bool {
        true
    }

    open spec fn eq_spec(&self, other: &Self) -> bool {
        self@ == other@
    }
}

impl WireData {
    /// The wire-type discriminant this payload shape is tagged with.
    pub fn type_number(&self) -> (r: u128)
        ensures
            r == wire_type_num(self@),
    {
        match self {
            WireData::Varint(_) => 0,
            WireData::Bit64(_) => 1,
            WireData::LengthDelimited(_) => 2,
            WireData::Bit32(_) => 5,
        }
    }
}

/// One tagged field on the wire: a field number paired with a payload.
#[derive(Debug)]
pub struct WireStruct {
    pub field_number: FieldNumber,
    pub wire_type: WireData,
}

impl View for WireStruct {
    type V = SpecWireStruct;

    open spec fn view(&self) -> SpecWireStruct {
        SpecWireStruct { field_number: self.field_number, data: self.wire_type@ }
    }
}

impl Clone for WireStruct {
    fn clone(&self) -> (r: Self)
        ensures
            r@ == self@,
    {
        WireStruct { field_number: self.field_number, wire_type: self.wire_type.clone() }
    }
}

impl PartialEq for WireStruct {
    fn eq(&self, other: &Self) -> (r: bool)
    {
        self.field_number == other.field_number && self.wire_type == other.wire_type
    }
}

impl Eq for WireStruct {

}

impl vstd::std_specs::cmp::PartialEqSpecImpl for WireStruct {
    open spec fn obeys_eq_spec() -> bool {
        true
    }

    open spec fn eq_spec(&self, other: &Self) -> bool {
        self@ == other@
    }
}

impl WireStruct {
    pub fn field_number(&self) -> (r: FieldNumber)
        ensures
            r == self@.field_number,
    {
        self.field_number
    }

    /// A copy of the payload.
    pub fn wire_type(&self) -> (r: WireData)
        ensures
            r@ == self@.data,
    {
        self.wire_type.clone()
    }

    /// Whether the held value is the payload shape's zero value; such a
    /// field writes no bytes when a frame is encoded.
    pub fn is_empty(&self) -> (r: bool)
        ensures
            r == wire_data_is_empty(self@.data),
    {
        match &self.wire_type {
            WireData::Varint(v) => v.value == 0,
            WireData::Bit64(b) => {
                let all: bool = b.value[0] == 0 && b.value[1] == 0 && b.value[2] == 0
                    && b.value[3] == 0 && b.value[4] == 0 && b.value[5] == 0 && b.value[6] == 0
                    && b.value[7] == 0;
                proof {
                    let s = b.value@;
                    assert(self@.data == SpecWireData::Bit64(s));
                    assert(s.len() == 8);
                    if all {
                        assert forall|i: int| 0 <= i < s.len() implies s[i] == 0 by {
                            if i == 0 {
                            } else if i == 1 {
                            } else if i == 2 {
                            } else if i == 3 {
                            } else if i == 4 {
                            } else if i == 5 {
                            } else if i == 6 {
                            } else {
                                assert(i == 7);
                            }
                        }
                        assert(all_zero(s));
                    } else {
                        if all_zero(s) {
                            assert(s[0] == 0 && s[1] == 0 && s[2] == 0 && s[3] == 0 && s[4] == 0
                                && s[5] == 0 && s[6] == 0 && s[7] == 0);
                        }
                        assert(!wire_data_is_empty(self@.data));
                    }
                }
                all
            },
            WireData::LengthDelimited(l) => l.value.len() == 0,
            WireData::Bit32(b) => {
                let all: bool = b.value[0] == 0 && b.value[1] == 0 && b.value[2] == 0
                    && b.value[3] == 0;
                proof {
                    let s = b.value@;
                    assert(self@.data == SpecWireData::Bit32(s));
                    assert(s.len() == 4);
                    if all {
                        assert forall|i: int| 0 <= i < s.len() implies s[i] == 0 by {
                            if i == 0 {
                            } else if i == 1 {
                            } else if i == 2 {
                            } else {
                                assert(i == 3);
                            }
                        }
                        assert(all_zero(s));
                    } else {
                        if all_zero(s) {
                            assert(s[0] == 0 && s[1] == 0 && s[2] == 0 && s[3] == 0);
                        }
                        assert(!wire_data_is_empty(self@.data));
                    }
                }
                all
            },
        }
    }

    pub fn new(field_number: FieldNumber, wire_type: WireData) -> (r: Self)
        ensures
            r@.field_number == field_number,
            r@.data == wire_type@,
    {
        WireStruct { field_number, wire_type }
    }

    /// A varint field holding the ZigZag code of a 32-bit signed value.
    pub fn from_i32(field_number: FieldNumber, data: i32) -> (r: Self)
        ensures
            r@.field_number == field_number,
            r@.data == SpecWireData::Varint(zigzag_encode32(data) as u128),
    {
        let code: u32 = data.encode();
        WireStruct::new(field_number, WireData::Varint(WireDataVarint::new(code as u128)))
    }

    /// A varint field holding the ZigZag code of a 64-bit signed value.
    pub fn from_i64(field_number: FieldNumber, data: i64) -> (r: Self)
        ensures
            r@.field_number == field_number,
            r@.data == SpecWireData::Varint(zigzag_encode64(data) as u128),
    {
        let code: u64 = data.encode();
        WireStruct::new(field_number, WireData::Varint(WireDataVarint::new(code as u128)))
    }

    /// A varint field holding a 32-bit unsigned value.
    pub fn from_u32(field_number: FieldNumber, data: u32) -> (r: Self)
        ensures
            r@.field_number == field_number,
            r@.data == SpecWireData::Varint(data as u128),
    {
        WireStruct::new(field_number, WireData::Varint(WireDataVarint::new(data as u128)))
    }

    /// A varint field holding a 64-bit unsigned value.
    pub fn from_u64(field_number: FieldNumber, data: u64) -> (r: Self)
        ensures
            r@.field_number == field_number,
            r@.data == SpecWireData::Varint(data as u128),
    {
        WireStruct::new(field_number, WireData::Varint(WireDataVarint::new(data as u128)))
    }

    /// A length-delimited field holding the UTF-8 bytes of a string.
    pub fn from_string(field_number: FieldNumber, data: String) -> (r: Self)
        ensures
            r@.field_number == field_number,
            r@.data == SpecWireData::LengthDelimited(vstd::utf8::encode_utf8(data@)),
    {
        let bytes: Vec<u8> = vstd::slice::slice_to_vec(data.as_str().as_bytes());
        WireStruct::new(
            field_number,
            WireData::LengthDelimited(WireDataLengthDelimited::new(bytes)),
        )
    }

    /// A length-delimited field holding the UTF-8 bytes of a string.
    pub fn from_vec(field_number: FieldNumber, data: String) -> (r: Self)
        ensures
            r@.field_number == field_number,
            r@.data == SpecWireData::LengthDelimited(vstd::utf8::encode_utf8(data@)),
    {
        let bytes: Vec<u8> = vstd::slice::slice_to_vec(data.as_str().as_bytes());
        WireStruct::new(
            field_number,
            WireData::LengthDelimited(WireDataLengthDelimited::new(bytes)),
        )
    }
}

/// The semantic interpretations a varint payload can be asked for.
#[derive(Debug, PartialEq, Eq, Clone, Copy, Structural)]
pub enum TypeVairant {
    Int32,
    Int64,
    Uint32,
    Uint64,
    Sint32,
    Sint64,
    Bool,
    Enum,
}

/// The semantic interpretations an eight-byte payload can be asked for.
#[derive(Debug, PartialEq, Eq, Clone, Copy, Structural)]
pub enum TypeBit64 {
    Fixed64,
    Sfixed64,
    Double,
}

/// The semantic interpretations a length-delimited payload can be asked for.
#[derive(Debug, PartialEq, Eq, Clone, Copy, Structural)]
pub enum TypeLengthDelimited {
    WireString,
    Bytes,
    EmbeddedMessages,
    PackedRepeatedFields(AllowedPakcedType),
}

/// The element interpretations a packed repeated payload can carry.
#[derive(Debug, PartialEq, Eq, Clone, Copy, Structural)]
pub enum AllowedPakcedType {
    Variant(TypeVairant),
    Bit64(TypeBit64),
    Bit32(TypeBit32),
}

/// The semantic interpretations a four-byte payload can be asked for.
#[derive(Debug, PartialEq, Eq, Clone, Copy, Structural)]
pub enum TypeBit32 {
    Fixed32,
    Sfixed32,
    Float,
}

} // verus!
