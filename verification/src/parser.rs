use vstd::prelude::*;

use crate::decode::{decode_variants_slice, parse_varints_all};
use crate::encode::{encode_repeat, repeat_bytes, varint_bytes};
use crate::error::{Error, LogicalType};
use crate::wire::{
    AllowedPakcedType, Proto, TypeBit32, TypeBit64, TypeLengthDelimited, TypeVairant,
    WireDataBit32, WireDataBit64, WireDataLengthDelimited, WireDataVarint,
};
use crate::zigzag::{
    zigzag_decode32_spec, zigzag_decode64_spec, zigzag_encode32, zigzag_encode64, ZigZag,
};

verus! {

/// The logical-type name of a varint interpretation, for mismatch errors.
pub open spec fn spec_variant_logical(ty: TypeVairant) -> LogicalType {
    match ty {
        TypeVairant::Int32 => LogicalType::Int32,
        TypeVairant::Int64 => LogicalType::Int64,
        TypeVairant::Uint32 => LogicalType::Uint32,
        TypeVairant::Uint64 => LogicalType::Uint64,
        TypeVairant::Sint32 => LogicalType::Sint32,
        TypeVairant::Sint64 => LogicalType::Sint64,
        TypeVairant::Bool => LogicalType::Bool,
        TypeVairant::Enum => LogicalType::Enum,
    }
}

/// The logical-type name of an eight-byte interpretation.
pub open spec fn spec_bit64_logical(ty: TypeBit64) -> LogicalType {
    match ty {
        TypeBit64::Fixed64 => LogicalType::Fixed64,
        TypeBit64::Sfixed64 => LogicalType::Sfixed64,
        TypeBit64::Double => LogicalType::Double,
    }
}

/// The logical-type name of a four-byte interpretation.
pub open spec fn spec_bit32_logical(ty: TypeBit32) -> LogicalType {
    match ty {
        TypeBit32::Fixed32 => LogicalType::Fixed32,
        TypeBit32::Sfixed32 => LogicalType::Sfixed32,
        TypeBit32::Float => LogicalType::Float,
    }
}

/// The logical-type name of a length-delimited interpretation.
pub open spec fn spec_ld_logical(ty: TypeLengthDelimited) -> LogicalType {
    match ty {
        TypeLengthDelimited::WireString => LogicalType::WireString,
        TypeLengthDelimited::Bytes => LogicalType::Bytes,
        TypeLengthDelimited::EmbeddedMessages => LogicalType::EmbeddedMessages,
        TypeLengthDelimited::PackedRepeatedFields(_) => LogicalType::PackedRepeatedFields,
    }
}

fn variant_logical(ty: TypeVairant) -> (r: LogicalType)
    ensures
        r == spec_variant_logical(ty),
{
    match ty {
        TypeVairant::Int32 => LogicalType::Int32,
        TypeVairant::Int64 => LogicalType::Int64,
        TypeVairant::Uint32 => LogicalType::Uint32,
        TypeVairant::Uint64 => LogicalType::Uint64,
        TypeVairant::Sint32 => LogicalType::Sint32,
        TypeVairant::Sint64 => LogicalType::Sint64,
        TypeVairant::Bool => LogicalType::Bool,
        TypeVairant::Enum => LogicalType::Enum,
    }
}

fn bit64_logical(ty: TypeBit64) -> (r: LogicalType)
    ensures
        r == spec_bit64_logical(ty),
{
    match ty {
        TypeBit64::Fixed64 => LogicalType::Fixed64,
        TypeBit64::Sfixed64 => LogicalType::Sfixed64,
        TypeBit64::Double => LogicalType::Double,
    }
}

fn bit32_logical(ty: TypeBit32) -> (r: LogicalType)
    ensures
        r == spec_bit32_logical(ty),
{
    match ty {
        TypeBit32::Fixed32 => LogicalType::Fixed32,
        TypeBit32::Sfixed32 => LogicalType::Sfixed32,
        TypeBit32::Float => LogicalType::Float,
    }
}

fn ld_logical(ty: TypeLengthDelimited) -> (r: LogicalType)
    ensures
        r == spec_ld_logical(ty),
{
    match ty {
        TypeLengthDelimited::WireString => LogicalType::WireString,
        TypeLengthDelimited::Bytes => LogicalType::Bytes,
        TypeLengthDelimited::EmbeddedMessages => LogicalType::EmbeddedMessages,
        TypeLengthDelimited::PackedRepeatedFields(_) => LogicalType::PackedRepeatedFields,
    }
}

/// A 64-bit pattern reinterpreted as a two's-complement signed value.
pub open spec fn u64_as_i64(u: u64) -> i64 {
    if u <= i64::MAX as u64 {
        u as i64
    } else {
        (u - 0x10000000000000000) as i64
    }
}

/// A 64-bit signed value reinterpreted as its two's-complement bit pattern.
pub open spec fn i64_as_u64(x: i64) -> u64 {
    if x >= 0 {
        x as u64
    } else {
        (x + 0x10000000000000000) as u64
    }
}

/// A 32-bit pattern reinterpreted as a two's-complement signed value.
pub open spec fn u32_as_i32(u: u32) -> i32 {
    if u <= i32::MAX as u32 {
        u as i32
    } else {
        (u - 0x100000000) as i32
    }
}

/// A 32-bit signed value reinterpreted as its two's-complement bit pattern.
pub open spec fn i32_as_u32(x: i32) -> u32 {
    if x >= 0 {
        x as u32
    } else {
        (x + 0x100000000) as u32
    }
}

fn u64_to_i64(u: u64) -> (r: i64)
    ensures
        r == u64_as_i64(u),
{
    if u <= i64::MAX as u64 {
        u as i64
    } else {
        let m: u64 = u64::MAX - u;
        -(m as i64) - 1
    }
}

fn i64_to_u64(x: i64) -> (r: u64)
    ensures
        r == i64_as_u64(x),
{
    if x >= 0 {
        x as u64
    } else {
        let m: i64 = -(x + 1);
        u64::MAX - (m as u64)
    }
}

fn u32_to_i32(u: u32) -> (r: i32)
    ensures
        r == u32_as_i32(u),
{
    if u <= i32::MAX as u32 {
        u as i32
    } else {
        let m: u32 = u32::MAX - u;
        -(m as i32) - 1
    }
}

fn i32_to_u32(x: i32) -> (r: u32)
    ensures
        r == i32_as_u32(x),
{
    if x >= 0 {
        x as u32
    } else {
        let m: i32 = -(x + 1);
        u32::MAX - (m as u32)
    }
}

/// The outcome shape of a conversion: `None` when the specification leaves
/// the result open, `Some(None)` for success, `Some(Some(e))` for failure
/// with exactly `e`.
pub open spec fn spec_outcome<T>(o: Option<Result<T, Error>>) -> Option<Option<Error>> {
    match o {
        Option::None => Option::None,
        Option::Some(Ok(_)) => Option::Some(Option::None),
        Option::Some(Err(e)) => Option::Some(Option::Some(e)),
    }
}

/// Semantic values that a varint payload converts to and from, directed by
/// a logical type tag.  Each conversion's behaviour is pinned by the spec
/// functions; a spec of `None` leaves the result open (used where a
/// caller-supplied enum conversion decides).
pub trait VariantToValue: Sized {
    spec fn from_valint_spec(input: u128, ty: TypeVairant) -> Option<Result<Self, Error>>;

    spec fn to_variant_spec(&self, ty: TypeVairant) -> Option<Result<u128, Error>>;

    /// Converts a decoded varint payload to the semantic value.
    fn from_valint(input: u128, ty: TypeVairant) -> (r: Result<Self, Error>)
        ensures
            Self::from_valint_spec(input, ty) matches Some(res) ==> r == res,
    ;

    /// Converts the semantic value to the varint payload that carries it.
    fn to_variant(&self, ty: TypeVairant) -> (r: Result<u128, Error>)
        ensures
            self.to_variant_spec(ty) matches Some(res) ==> r == res,
    ;
}

impl VariantToValue for i32 {
    open spec fn from_valint_spec(input: u128, ty: TypeVairant) -> Option<Result<i32, Error>> {
        match ty {
            TypeVairant::Int32 => Some(
                if input > u64::MAX as u128 {
                    Err(Error::ValueTooLarge { value: input, max: u64::MAX as u128 })
                } else {
                    let v = u64_as_i64(input as u64);
                    if i32::MIN <= v <= i32::MAX {
                        Ok(v as i32)
                    } else {
                        Err(
                            Error::ValueOutOfRange {
                                found: v as i128,
                                lower: i32::MIN as i128,
                                upper: i32::MAX as i128,
                            },
                        )
                    }
                },
            ),
            TypeVairant::Sint32 => Some(zigzag_decode32_spec(input)),
            _ => Some(
                Err(
                    Error::UnexpectedType {
                        want: LogicalType::Int32,
                        got: spec_variant_logical(ty),
                    },
                ),
            ),
        }
    }

    open spec fn to_variant_spec(&self, ty: TypeVairant) -> Option<Result<u128, Error>> {
        match ty {
            TypeVairant::Int32 => Some(Ok(i64_as_u64(*self as i64) as u128)),
            TypeVairant::Sint32 => Some(Ok(zigzag_encode32(*self) as u128)),
            _ => Some(
                Err(
                    Error::UnexpectedType {
                        want: LogicalType::Int32,
                        got: spec_variant_logical(ty),
                    },
                ),
            ),
        }
    }

    fn from_valint(input: u128, ty: TypeVairant) -> (r: Result<i32, Error>) {
        match ty {
            TypeVairant::Int32 => {
                if input > u64::MAX as u128 {
                    Err(Error::ValueTooLarge { value: input, max: u64::MAX as u128 })
                } else {
                    let v: i64 = u64_to_i64(input as u64);
                    if i32::MIN as i64 <= v && v <= i32::MAX as i64 {
                        Ok(v as i32)
                    } else {
                        Err(
                            Error::ValueOutOfRange {
                                found: v as i128,
                                lower: i32::MIN as i128,
                                upper: i32::MAX as i128,
                            },
                        )
                    }
                }
            },
            TypeVairant::Sint32 => crate::zigzag::decode_i32(input),
            _ => Err(
                Error::UnexpectedType { want: LogicalType::Int32, got: variant_logical(ty) },
            ),
        }
    }

    fn to_variant(&self, ty: TypeVairant) -> (r: Result<u128, Error>) {
        match ty {
            TypeVairant::Int32 => Ok(i64_to_u64(*self as i64) as u128),
            TypeVairant::Sint32 => Ok(self.encode() as u128),
            _ => Err(
                Error::UnexpectedType { want: LogicalType::Int32, got: variant_logical(ty) },
            ),
        }
    }
}

impl VariantToValue for i64 {
    open spec fn from_valint_spec(input: u128, ty: TypeVairant) -> Option<Result<i64, Error>> {
        match ty {
            TypeVairant::Int64 => Some(
                if input > u64::MAX as u128 {
                    Err(Error::ValueTooLarge { value: input, max: u64::MAX as u128 })
                } else {
                    Ok(u64_as_i64(input as u64))
                },
            ),
            TypeVairant::Sint64 => Some(zigzag_decode64_spec(input)),
            _ => Some(
                Err(
                    Error::UnexpectedType {
                        want: LogicalType::Int64,
                        got: spec_variant_logical(ty),
                    },
                ),
            ),
        }
    }

    open spec fn to_variant_spec(&self, ty: TypeVairant) -> Option<Result<u128, Error>> {
        match ty {
            TypeVairant::Int64 => Some(Ok(i64_as_u64(*self) as u128)),
            TypeVairant::Sint64 => Some(Ok(zigzag_encode64(*self) as u128)),
            _ => Some(
                Err(
                    Error::UnexpectedType {
                        want: LogicalType::Int64,
                        got: spec_variant_logical(ty),
                    },
                ),
            ),
        }
    }

    fn from_valint(input: u128, ty: TypeVairant) -> (r: Result<i64, Error>) {
        match ty {
            TypeVairant::Int64 => {
                if input > u64::MAX as u128 {
                    Err(Error::ValueTooLarge { value: input, max: u64::MAX as u128 })
                } else {
                    Ok(u64_to_i64(input as u64))
                }
            },
            TypeVairant::Sint64 => crate::zigzag::decode_i64(input),
            _ => Err(
                Error::UnexpectedType { want: LogicalType::Int64, got: variant_logical(ty) },
            ),
        }
    }

    fn to_variant(&self, ty: TypeVairant) -> (r: Result<u128, Error>) {
        match ty {
            TypeVairant::Int64 => Ok(i64_to_u64(*self) as u128),
            TypeVairant::Sint64 => Ok(self.encode() as u128),
            _ => Err(
                Error::UnexpectedType { want: LogicalType::Int64, got: variant_logical(ty) },
            ),
        }
    }
}

impl VariantToValue for u32 {
    open spec fn from_valint_spec(input: u128, ty: TypeVairant) -> Option<Result<u32, Error>> {
        match ty {
            TypeVairant::Uint32 => Some(
                if input > u32::MAX as u128 {
                    Err(Error::ValueTooLarge { value: input, max: u32::MAX as u128 })
                } else {
                    Ok(input as u32)
                },
            ),
            _ => Some(
                Err(
                    Error::UnexpectedType {
                        want: LogicalType::Uint32,
                        got: spec_variant_logical(ty),
                    },
                ),
            ),
        }
    }

    open spec fn to_variant_spec(&self, ty: TypeVairant) -> Option<Result<u128, Error>> {
        match ty {
            TypeVairant::Uint32 => Some(Ok(*self as u128)),
            _ => Some(
                Err(
                    Error::UnexpectedType {
                        want: LogicalType::Uint32,
                        got: spec_variant_logical(ty),
                    },
                ),
            ),
        }
    }

    fn from_valint(input: u128, ty: TypeVairant) -> (r: Result<u32, Error>) {
        match ty {
            TypeVairant::Uint32 => {
                if input > u32::MAX as u128 {
                    Err(Error::ValueTooLarge { value: input, max: u32::MAX as u128 })
                } else {
                    Ok(input as u32)
                }
            },
            _ => Err(
                Error::UnexpectedType { want: LogicalType::Uint32, got: variant_logical(ty) },
            ),
        }
    }

    fn to_variant(&self, ty: TypeVairant) -> (r: Result<u128, Error>) {
        match ty {
            TypeVairant::Uint32 => Ok(*self as u128),
            _ => Err(
                Error::UnexpectedType { want: LogicalType::Uint32, got: variant_logical(ty) },
            ),
        }
    }
}

impl VariantToValue for u64 {
    open spec fn from_valint_spec(input: u128, ty: TypeVairant) -> Option<Result<u64, Error>> {
        match ty {
            TypeVairant::Uint64 => Some(
                if input > u64::MAX as u128 {
                    Err(Error::ValueTooLarge { value: input, max: u64::MAX as u128 })
                } else {
                    Ok(input as u64)
                },
            ),
            _ => Some(
                Err(
                    Error::UnexpectedType {
                        want: LogicalType::Uint64,
                        got: spec_variant_logical(ty),
                    },
                ),
            ),
        }
    }

    open spec fn to_variant_spec(&self, ty: TypeVairant) -> Option<Result<u128, Error>> {
        match ty {
            TypeVairant::Uint64 => Some(Ok(*self as u128)),
            _ => Some(
                Err(
                    Error::UnexpectedType {
                        want: LogicalType::Uint64,
                        got: spec_variant_logical(ty),
                    },
                ),
            ),
        }
    }

    fn from_valint(input: u128, ty: TypeVairant) -> (r: Result<u64, Error>) {
        match ty {
            TypeVairant::Uint64 => {
                if input > u64::MAX as u128 {
                    Err(Error::ValueTooLarge { value: input, max: u64::MAX as u128 })
                } else {
                    Ok(input as u64)
                }
            },
            _ => Err(
                Error::UnexpectedType { want: LogicalType::Uint64, got: variant_logical(ty) },
            ),
        }
    }

    fn to_variant(&self, ty: TypeVairant) -> (r: Result<u128, Error>) {
        match ty {
            TypeVairant::Uint64 => Ok(*self as u128),
            _ => Err(
                Error::UnexpectedType { want: LogicalType::Uint64, got: variant_logical(ty) },
            ),
        }
    }
}

impl VariantToValue for bool {
    open spec fn from_valint_spec(input: u128, ty: TypeVairant) -> Option<Result<bool, Error>> {
        match ty {
            TypeVairant::Bool => Some(Ok(input != 0)),
            _ => Some(
                Err(
                    Error::UnexpectedType {
                        want: LogicalType::Bool,
                        got: spec_variant_logical(ty),
                    },
                ),
            ),
        }
    }

    open spec fn to_variant_spec(&self, ty: TypeVairant) -> Option<Result<u128, Error>> {
        match ty {
            TypeVairant::Bool => Some(
                Ok(
                    if *self {
                        1u128
                    } else {
                        0u128
                    },
                ),
            ),
            _ => Some(
                Err(
                    Error::UnexpectedType {
                        want: LogicalType::Bool,
                        got: spec_variant_logical(ty),
                    },
                ),
            ),
        }
    }

    fn from_valint(input: u128, ty: TypeVairant) -> (r: Result<bool, Error>) {
        match ty {
            TypeVairant::Bool => Ok(input != 0),
            _ => Err(Error::UnexpectedType { want: LogicalType::Bool, got: variant_logical(ty) }),
        }
    }

    fn to_variant(&self, ty: TypeVairant) -> (r: Result<u128, Error>) {
        match ty {
            TypeVairant::Bool => {
                if *self {
                    Ok(1)
                } else {
                    Ok(0)
                }
            },
            _ => Err(Error::UnexpectedType { want: LogicalType::Bool, got: variant_logical(ty) }),
        }
    }
}

/// Enumerations that convert to and from their numeric representation.
/// Impls come from the caller, so nothing is promised of the two methods.
pub trait VariantEnum: Sized + Copy {
    fn from_i32(input: i32) -> Self;

    fn into_i32(self) -> i32;
}

impl<T: VariantEnum> VariantToValue for T {
    open spec fn from_valint_spec(input: u128, ty: TypeVairant) -> Option<Result<T, Error>> {
        match ty {
            TypeVairant::Enum => if input > u32::MAX as u128 {
                Some(Err(Error::ValueTooLarge { value: input, max: u32::MAX as u128 }))
            } else {
                None
            },
            _ => Some(
                Err(
                    Error::UnexpectedType {
                        want: LogicalType::Enum,
                        got: spec_variant_logical(ty),
                    },
                ),
            ),
        }
    }

    open spec fn to_variant_spec(&self, ty: TypeVairant) -> Option<Result<u128, Error>> {
        match ty {
            TypeVairant::Enum => None,
            _ => Some(
                Err(
                    Error::UnexpectedType {
                        want: LogicalType::Enum,
                        got: spec_variant_logical(ty),
                    },
                ),
            ),
        }
    }

    fn from_valint(input: u128, ty: TypeVairant) -> (r: Result<T, Error>) {
        match ty {
            TypeVairant::Enum => {
                if input > u32::MAX as u128 {
                    Err(Error::ValueTooLarge { value: input, max: u32::MAX as u128 })
                } else {
                    Ok(T::from_i32(u32_to_i32(input as u32)))
                }
            },
            _ => Err(Error::UnexpectedType { want: LogicalType::Enum, got: variant_logical(ty) }),
        }
    }

    fn to_variant(&self, ty: TypeVairant) -> (r: Result<u128, Error>) {
        match ty {
            TypeVairant::Enum => {
                let x: i32 = self.into_i32();
                let wide: i64 = x as i64;
                if wide >= 0 {
                    Ok(wide as u128)
                } else {
                    // sign-extend the negative value to the full 128 bits,
                    // as a direct cast would
                    let m: i64 = -(wide + 1);
                    Ok(u128::MAX - (m as u128))
                }
            },
            _ => Err(Error::UnexpectedType { want: LogicalType::Enum, got: variant_logical(ty) }),
        }
    }
}

/// Fills an eight-byte array from a vector of exactly eight bytes.
fn bytes8_of_vec(v: &Vec<u8>) -> (r: [u8; 8])
    requires
        v@.len() == 8,
    ensures
        r@ == v@,
{
    broadcast use vstd::array::group_array_axioms;

    let mut buf: [u8; 8] = [0; 8];
    let mut k: usize = 0;
    while k < 8
        invariant
            k <= 8,
            v@.len() == 8,
            buf@.len() == 8,
            forall|j: int| 0 <= j < k ==> buf@[j] == v@[j],
        decreases 8 - k,
    {
        buf[k] = v[k];
        k = k + 1;
    }
    proof {
        assert(buf@ =~= v@);
    }
    buf
}

/// Fills a four-byte array from a vector of exactly four bytes.
fn bytes4_of_vec(v: &Vec<u8>) -> (r: [u8; 4])
    requires
        v@.len() == 4,
    ensures
        r@ == v@,
{
    broadcast use vstd::array::group_array_axioms;

    let mut buf: [u8; 4] = [0; 4];
    let mut k: usize = 0;
    while k < 4
        invariant
            k <= 4,
            v@.len() == 4,
            buf@.len() == 4,
            forall|j: int| 0 <= j < k ==> buf@[j] == v@[j],
        decreases 4 - k,
    {
        buf[k] = v[k];
        k = k + 1;
    }
    proof {
        assert(buf@ =~= v@);
    }
    buf
}

/// Semantic values that an eight-byte payload converts to and from,
/// directed by a logical type tag.
pub trait Bit64ToValue: Sized {
    spec fn from_bit64_spec(input: Seq<u8>, ty: TypeBit64) -> Option<Result<Self, Error>>;

    spec fn to_bit64_spec(&self, ty: TypeBit64) -> Option<Result<Seq<u8>, Error>>;

    /// Converts an eight-byte little-endian payload to the semantic value.
    fn from_bit64(input: [u8; 8], ty: TypeBit64) -> (r: Result<Self, Error>)
        ensures
            Self::from_bit64_spec(input@, ty) matches Some(res) ==> r == res,
    ;

    /// Converts the semantic value to its eight-byte little-endian payload.
    fn to_bit64(&self, ty: TypeBit64) -> (r: Result<[u8; 8], Error>)
        ensures
            match self.to_bit64_spec(ty) {
                Some(Ok(s)) => r matches Ok(arr) && arr@ == s,
                Some(Err(e)) => r == Err::<[u8; 8], Error>(e),
                None => true,
            },
    ;
}

impl Bit64ToValue for u64 {
    open spec fn from_bit64_spec(input: Seq<u8>, ty: TypeBit64) -> Option<Result<u64, Error>> {
        match ty {
            TypeBit64::Fixed64 => Some(Ok(vstd::bytes::spec_u64_from_le_bytes(input))),
            _ => Some(
                Err(
                    Error::UnexpectedType {
                        want: LogicalType::Fixed64,
                        got: spec_bit64_logical(ty),
                    },
                ),
            ),
        }
    }

    open spec fn to_bit64_spec(&self, ty: TypeBit64) -> Option<Result<Seq<u8>, Error>> {
        match ty {
            TypeBit64::Fixed64 => Some(Ok(vstd::bytes::spec_u64_to_le_bytes(*self))),
            _ => Some(
                Err(
                    Error::UnexpectedType {
                        want: LogicalType::Fixed64,
                        got: spec_bit64_logical(ty),
                    },
                ),
            ),
        }
    }

    fn from_bit64(input: [u8; 8], ty: TypeBit64) -> (r: Result<u64, Error>) {
        broadcast use vstd::array::group_array_axioms;

        match ty {
            TypeBit64::Fixed64 => Ok(vstd::bytes::u64_from_le_bytes(input.as_slice())),
            _ => Err(
                Error::UnexpectedType { want: LogicalType::Fixed64, got: bit64_logical(ty) },
            ),
        }
    }

    fn to_bit64(&self, ty: TypeBit64) -> (r: Result<[u8; 8], Error>) {
        match ty {
            TypeBit64::Fixed64 => {
                let v: Vec<u8> = vstd::bytes::u64_to_le_bytes(*self);
                proof {
                    vstd::bytes::lemma_auto_spec_u64_to_from_le_bytes();
                }
                Ok(bytes8_of_vec(&v))
            },
            _ => Err(
                Error::UnexpectedType { want: LogicalType::Fixed64, got: bit64_logical(ty) },
            ),
        }
    }
}

impl Bit64ToValue for i64 {
    open spec fn from_bit64_spec(input: Seq<u8>, ty: TypeBit64) -> Option<Result<i64, Error>> {
        match ty {
            TypeBit64::Sfixed64 => Some(
                Ok(u64_as_i64(vstd::bytes::spec_u64_from_le_bytes(input))),
            ),
            _ => Some(
                Err(
                    Error::UnexpectedType {
                        want: LogicalType::Sfixed64,
                        got: spec_bit64_logical(ty),
                    },
                ),
            ),
        }
    }

    open spec fn to_bit64_spec(&self, ty: TypeBit64) -> Option<Result<Seq<u8>, Error>> {
        match ty {
            TypeBit64::Sfixed64 => Some(
                Ok(vstd::bytes::spec_u64_to_le_bytes(i64_as_u64(*self))),
            ),
            _ => Some(
                Err(
                    Error::UnexpectedType {
                        want: LogicalType::Sfixed64,
                        got: spec_bit64_logical(ty),
                    },
                ),
            ),
        }
    }

    fn from_bit64(input: [u8; 8], ty: TypeBit64) -> (r: Result<i64, Error>) {
        broadcast use vstd::array::group_array_axioms;

        match ty {
            TypeBit64::Sfixed64 => Ok(u64_to_i64(vstd::bytes::u64_from_le_bytes(input.as_slice()))),
            _ => Err(
                Error::UnexpectedType { want: LogicalType::Sfixed64, got: bit64_logical(ty) },
            ),
        }
    }

    fn to_bit64(&self, ty: TypeBit64) -> (r: Result<[u8; 8], Error>) {
        match ty {
            TypeBit64::Sfixed64 => {
                let v: Vec<u8> = vstd::bytes::u64_to_le_bytes(i64_to_u64(*self));
                proof {
                    vstd::bytes::lemma_auto_spec_u64_to_from_le_bytes();
                }
                Ok(bytes8_of_vec(&v))
            },
            _ => Err(
                Error::UnexpectedType { want: LogicalType::Sfixed64, got: bit64_logical(ty) },
            ),
        }
    }
}

/// Semantic values that a four-byte payload converts to and from, directed
/// by a logical type tag.
pub trait Bit32ToValue: Sized {
    spec fn from_bit32_spec(input: Seq<u8>, ty: TypeBit32) -> Option<Result<Self, Error>>;

    spec fn to_bit32_spec(&self, ty: TypeBit32) -> Option<Result<Seq<u8>, Error>>;

    /// Converts a four-byte little-endian payload to the semantic value.
    fn from_bit64(input: [u8; 4], ty: TypeBit32) -> (r: Result<Self, Error>)
        ensures
            Self::from_bit32_spec(input@, ty) matches Some(res) ==> r == res,
    ;

    /// Converts the semantic value to its four-byte little-endian payload.
    fn to_bit64(&self, ty: TypeBit32) -> (r: Result<[u8; 4], Error>)
        ensures
            match self.to_bit32_spec(ty) {
                Some(Ok(s)) => r matches Ok(arr) && arr@ == s,
                Some(Err(e)) => r == Err::<[u8; 4], Error>(e),
                None => true,
            },
    ;
}

impl Bit32ToValue for u32 {
    open spec fn from_bit32_spec(input: Seq<u8>, ty: TypeBit32) -> Option<Result<u32, Error>> {
        match ty {
            TypeBit32::Fixed32 => Some(Ok(vstd::bytes::spec_u32_from_le_bytes(input))),
            _ => Some(
                Err(
                    Error::UnexpectedType {
                        want: LogicalType::Fixed32,
                        got: spec_bit32_logical(ty),
                    },
                ),
            ),
        }
    }

    open spec fn to_bit32_spec(&self, ty: TypeBit32) -> Option<Result<Seq<u8>, Error>> {
        match ty {
            TypeBit32::Fixed32 => Some(Ok(vstd::bytes::spec_u32_to_le_bytes(*self))),
            _ => Some(
                Err(
                    Error::UnexpectedType {
                        want: LogicalType::Fixed32,
                        got: spec_bit32_logical(ty),
                    },
                ),
            ),
        }
    }

    fn from_bit64(input: [u8; 4], ty: TypeBit32) -> (r: Result<u32, Error>) {
        broadcast use vstd::array::group_array_axioms;

        match ty {
            TypeBit32::Fixed32 => Ok(vstd::bytes::u32_from_le_bytes(input.as_slice())),
            _ => Err(
                Error::UnexpectedType { want: LogicalType::Fixed32, got: bit32_logical(ty) },
            ),
        }
    }

    fn to_bit64(&self, ty: TypeBit32) -> (r: Result<[u8; 4], Error>) {
        match ty {
            TypeBit32::Fixed32 => {
                let v: Vec<u8> = vstd::bytes::u32_to_le_bytes(*self);
                proof {
                    vstd::bytes::lemma_auto_spec_u32_to_from_le_bytes();
                }
                Ok(bytes4_of_vec(&v))
            },
            _ => Err(
                Error::UnexpectedType { want: LogicalType::Fixed32, got: bit32_logical(ty) },
            ),
        }
    }
}

impl Bit32ToValue for i32 {
    open spec fn from_bit32_spec(input: Seq<u8>, ty: TypeBit32) -> Option<Result<i32, Error>> {
        match ty {
            TypeBit32::Sfixed32 => Some(
                Ok(u32_as_i32(vstd::bytes::spec_u32_from_le_bytes(input))),
            ),
            _ => Some(
                Err(
                    Error::UnexpectedType {
                        want: LogicalType::Sfixed32,
                        got: spec_bit32_logical(ty),
                    },
                ),
            ),
        }
    }

    open spec fn to_bit32_spec(&self, ty: TypeBit32) -> Option<Result<Seq<u8>, Error>> {
        match ty {
            TypeBit32::Sfixed32 => Some(
                Ok(vstd::bytes::spec_u32_to_le_bytes(i32_as_u32(*self))),
            ),
            _ => Some(
                Err(
                    Error::UnexpectedType {
                        want: LogicalType::Sfixed32,
                        got: spec_bit32_logical(ty),
                    },
                ),
            ),
        }
    }

    fn from_bit64(input: [u8; 4], ty: TypeBit32) -> (r: Result<i32, Error>) {
        broadcast use vstd::array::group_array_axioms;

        match ty {
            TypeBit32::Sfixed32 => Ok(u32_to_i32(vstd::bytes::u32_from_le_bytes(input.as_slice()))),
            _ => Err(
                Error::UnexpectedType { want: LogicalType::Sfixed32, got: bit32_logical(ty) },
            ),
        }
    }

    fn to_bit64(&self, ty: TypeBit32) -> (r: Result<[u8; 4], Error>) {
        match ty {
            TypeBit32::Sfixed32 => {
                let v: Vec<u8> = vstd::bytes::u32_to_le_bytes(i32_to_u32(*self));
                proof {
                    vstd::bytes::lemma_auto_spec_u32_to_from_le_bytes();
                }
                Ok(bytes4_of_vec(&v))
            },
            _ => Err(
                Error::UnexpectedType { want: LogicalType::Sfixed32, got: bit32_logical(ty) },
            ),
        }
    }
}

/// Relies on `String::from_utf8`: it succeeds exactly on input that is
/// valid UTF-8 and yields the string whose characters those bytes encode.
#[verifier::external_body]
fn string_from_utf8(v: Vec<u8>) -> (r: Result<String, Error>)
    ensures
        r matches Ok(s) ==> vstd::utf8::valid_utf8(v@) && s@ == vstd::utf8::decode_utf8(v@),
        r matches Err(e) ==> !vstd::utf8::valid_utf8(v@) && e == Error::InvalidUtf8,
        r is Ok <==> vstd::utf8::valid_utf8(v@),
{
    match String::from_utf8(v) {
        Ok(s) => Ok(s),
        Err(_) => Err(Error::InvalidUtf8),
    }
}

/// The first failure among elementwise varint conversions, if the
/// specification decides every element up to it.
pub open spec fn map_valint_err<T: VariantToValue>(vals: Seq<u128>, tv: TypeVairant) -> Option<
    Option<Error>,
>
    decreases vals.len(),
{
    if vals.len() == 0 {
        Some(Option::None)
    } else {
        match T::from_valint_spec(vals[0], tv) {
            Option::None => Option::None,
            Option::Some(Err(e)) => Option::Some(Option::Some(e)),
            Option::Some(Ok(_)) => map_valint_err::<T>(vals.skip(1), tv),
        }
    }
}

/// The packed payload of a sequence of elements: each converted to its
/// varint value and encoded, back to back; the first conversion failure
/// wins.
pub open spec fn packed_bytes_spec<T: VariantToValue>(elems: Seq<T>, tv: TypeVairant) -> Option<
    Result<Seq<u8>, Error>,
>
    decreases elems.len(),
{
    if elems.len() == 0 {
        Some(Ok(Seq::empty()))
    } else {
        match elems[0].to_variant_spec(tv) {
            Option::None => Option::None,
            Option::Some(Err(e)) => Option::Some(Err(e)),
            Option::Some(Ok(u)) => match packed_bytes_spec::<T>(elems.skip(1), tv) {
                Option::None => Option::None,
                Option::Some(Err(e)) => Option::Some(Err(e)),
                Option::Some(Ok(rest)) => Option::Some(Ok(varint_bytes(u) + rest)),
            },
        }
    }
}

/// Semantic values that a length-delimited payload converts to and from,
/// directed by a logical type tag.  `from_ld_spec_err` names the exact
/// error, or `Some(None)` for success, or `None` where the result is left
/// open; `from_ld_ok` pins what a successful result must be.
pub trait LengthDelimitedToValue: Sized {
    spec fn from_ld_spec_err(input: Seq<u8>, ty: TypeLengthDelimited) -> Option<Option<Error>>;

    spec fn from_ld_ok(input: Seq<u8>, ty: TypeLengthDelimited, r: Self) -> bool;

    spec fn into_ld_spec(self, ty: TypeLengthDelimited) -> Option<Result<Seq<u8>, Error>>;

    /// Converts a length-delimited payload to the semantic value.
    fn from_length_delimited(input: Vec<u8>, ty: TypeLengthDelimited) -> (r: Result<Self, Error>)
        ensures
            match Self::from_ld_spec_err(input@, ty) {
                Some(Some(e)) => r == Err::<Self, Error>(e),
                Some(None) => r matches Ok(v) && Self::from_ld_ok(input@, ty, v),
                None => true,
            },
    ;

    /// Converts the semantic value to the length-delimited payload that
    /// carries it.
    fn into_length_delimited(self, ty: TypeLengthDelimited) -> (r: Result<Vec<u8>, Error>)
        ensures
            match self.into_ld_spec(ty) {
                Some(Ok(s)) => r matches Ok(v) && v@ == s,
                Some(Err(e)) => r == Err::<Vec<u8>, Error>(e),
                None => true,
            },
    ;
}

impl LengthDelimitedToValue for String {
    open spec fn from_ld_spec_err(input: Seq<u8>, ty: TypeLengthDelimited) -> Option<
        Option<Error>,
    > {
        match ty {
            TypeLengthDelimited::WireString => if vstd::utf8::valid_utf8(input) {
                Some(Option::None)
            } else {
                Some(Option::Some(Error::InvalidUtf8))
            },
            _ => Some(
                Option::Some(
                    Error::UnexpectedType {
                        want: LogicalType::WireString,
                        got: spec_ld_logical(ty),
                    },
                ),
            ),
        }
    }

    open spec fn from_ld_ok(input: Seq<u8>, ty: TypeLengthDelimited, r: String) -> bool {
        r@ == vstd::utf8::decode_utf8(input)
    }

    open spec fn into_ld_spec(self, ty: TypeLengthDelimited) -> Option<Result<Seq<u8>, Error>> {
        match ty {
            TypeLengthDelimited::WireString => Some(Ok(vstd::utf8::encode_utf8(self@))),
            _ => Some(
                Err(
                    Error::UnexpectedType {
                        want: LogicalType::WireString,
                        got: spec_ld_logical(ty),
                    },
                ),
            ),
        }
    }

    fn from_length_delimited(input: Vec<u8>, ty: TypeLengthDelimited) -> (r: Result<
        String,
        Error,
    >) {
        match ty {
            TypeLengthDelimited::WireString => string_from_utf8(input),
            _ => Err(
                Error::UnexpectedType { want: LogicalType::WireString, got: ld_logical(ty) },
            ),
        }
    }

    fn into_length_delimited(self, ty: TypeLengthDelimited) -> (r: Result<Vec<u8>, Error>) {
        match ty {
            TypeLengthDelimited::WireString => Ok(
                vstd::slice::slice_to_vec(self.as_str().as_bytes()),
            ),
            _ => Err(
                Error::UnexpectedType { want: LogicalType::WireString, got: ld_logical(ty) },
            ),
        }
    }
}

impl LengthDelimitedToValue for Vec<u8> {
    open spec fn from_ld_spec_err(input: Seq<u8>, ty: TypeLengthDelimited) -> Option<
        Option<Error>,
    > {
        match ty {
            TypeLengthDelimited::Bytes => Some(Option::None),
            _ => Some(
                Option::Some(
                    Error::UnexpectedType { want: LogicalType::Bytes, got: spec_ld_logical(ty) },
                ),
            ),
        }
    }

    open spec fn from_ld_ok(input: Seq<u8>, ty: TypeLengthDelimited, r: Vec<u8>) -> bool {
        r@ == input
    }

    open spec fn into_ld_spec(self, ty: TypeLengthDelimited) -> Option<Result<Seq<u8>, Error>> {
        match ty {
            TypeLengthDelimited::Bytes => Some(Ok(self@)),
            _ => Some(
                Err(
                    Error::UnexpectedType { want: LogicalType::Bytes, got: spec_ld_logical(ty) },
                ),
            ),
        }
    }

    fn from_length_delimited(input: Vec<u8>, ty: TypeLengthDelimited) -> (r: Result<
        Vec<u8>,
        Error,
    >) {
        match ty {
            TypeLengthDelimited::Bytes => Ok(input),
            _ => Err(Error::UnexpectedType { want: LogicalType::Bytes, got: ld_logical(ty) }),
        }
    }

    fn into_length_delimited(self, ty: TypeLengthDelimited) -> (r: Result<Vec<u8>, Error>) {
        match ty {
            TypeLengthDelimited::Bytes => Ok(self),
            _ => Err(Error::UnexpectedType { want: LogicalType::Bytes, got: ld_logical(ty) }),
        }
    }
}

impl<T: VariantToValue> LengthDelimitedToValue for Vec<T> {
    open spec fn from_ld_spec_err(input: Seq<u8>, ty: TypeLengthDelimited) -> Option<
        Option<Error>,
    > {
        match ty {
            TypeLengthDelimited::PackedRepeatedFields(AllowedPakcedType::Variant(tv)) => match
                parse_varints_all(input, 0) {
                Err(e) => Some(Option::Some(e)),
                Ok(vals) => map_valint_err::<T>(vals, tv),
            },
            _ => Some(
                Option::Some(
                    Error::UnexpectedType {
                        want: LogicalType::PackedRepeatedFields,
                        got: spec_ld_logical(ty),
                    },
                ),
            ),
        }
    }

    open spec fn from_ld_ok(input: Seq<u8>, ty: TypeLengthDelimited, r: Vec<T>) -> bool {
        match ty {
            TypeLengthDelimited::PackedRepeatedFields(AllowedPakcedType::Variant(tv)) => {
                &&& parse_varints_all(input, 0) is Ok
                &&& r@.len() == parse_varints_all(input, 0)->Ok_0.len()
                &&& forall|j: int|
                    0 <= j < r@.len() ==> #[trigger] T::from_valint_spec(
                        parse_varints_all(input, 0)->Ok_0[j],
                        tv,
                    ) == Some(Ok::<T, Error>(r@[j]))
            },
            _ => false,
        }
    }

    open spec fn into_ld_spec(self, ty: TypeLengthDelimited) -> Option<Result<Seq<u8>, Error>> {
        match ty {
            TypeLengthDelimited::PackedRepeatedFields(AllowedPakcedType::Variant(tv)) =>
                packed_bytes_spec::<T>(self@, tv),
            _ => Some(
                Err(
                    Error::UnexpectedType {
                        want: LogicalType::PackedRepeatedFields,
                        got: spec_ld_logical(ty),
                    },
                ),
            ),
        }
    }

    fn from_length_delimited(input: Vec<u8>, ty: TypeLengthDelimited) -> (r: Result<
        Vec<T>,
        Error,
    >) {
        match ty {
            TypeLengthDelimited::PackedRepeatedFields(AllowedPakcedType::Variant(tv)) => {
                let vals: Vec<u128> = match decode_variants_slice(input.as_slice()) {
                    Ok(v) => v,
                    Err(e) => {
                        return Err(e);
                    },
                };
                let ghost svals: Seq<u128> = vals@;
                let mut out: Vec<T> = Vec::new();
                let mut i: usize = 0;
                proof {
                    assert(svals.skip(0) =~= svals);
                }
                while i < vals.len()
                    invariant
                        i <= vals@.len(),
                        out@.len() == i,
                        vals@ == svals,
                        ty == TypeLengthDelimited::PackedRepeatedFields(
                            AllowedPakcedType::Variant(tv),
                        ),
                        parse_varints_all(input@, 0) == Ok::<Seq<u128>, Error>(svals),
                        map_valint_err::<T>(svals, tv) is None || (map_valint_err::<T>(svals, tv)
                            == map_valint_err::<T>(svals.skip(i as int), tv) && forall|j: int|
                            0 <= j < i ==> #[trigger] T::from_valint_spec(svals[j], tv) == Some(
                                Ok::<T, Error>(out@[j]),
                            )),
                    decreases vals@.len() - i,
                {
                    let ghost pre: Seq<T> = out@;
                    proof {
                        assert(svals.skip(i as int)[0] == svals[i as int]);
                        assert(svals.skip(i as int).skip(1) =~= svals.skip(i as int + 1));
                    }
                    let res: Result<T, Error> = T::from_valint(vals[i], tv);
                    match res {
                        Err(e) => {
                            proof {
                                match map_valint_err::<T>(svals, tv) {
                                    Option::None => {},
                                    Option::Some(oe) => {
                                        match T::from_valint_spec(svals[i as int], tv) {
                                            Option::None => {
                                                assert(map_valint_err::<T>(
                                                    svals.skip(i as int),
                                                    tv,
                                                ) is None);
                                                assert(false);
                                            },
                                            Option::Some(Ok(v)) => {
                                                assert(res == Ok::<T, Error>(v));
                                                assert(false);
                                            },
                                            Option::Some(Err(e3)) => {
                                                assert(map_valint_err::<T>(
                                                    svals.skip(i as int),
                                                    tv,
                                                ) == Some(Option::Some(e3)));
                                                assert(e == e3);
                                            },
                                        }
                                    },
                                }
                                assert(parse_varints_all(input@, 0) == Ok::<Seq<u128>, Error>(
                                    svals,
                                ));
                                assert(ty == TypeLengthDelimited::PackedRepeatedFields(
                                    AllowedPakcedType::Variant(tv),
                                ));
                                assert(Self::from_ld_spec_err(input@, ty) == map_valint_err::<T>(
                                    svals,
                                    tv,
                                ));
                                assert(Self::from_ld_spec_err(input@, ty) matches Some(oe2)
                                    ==> oe2 == Option::Some(e));
                            }
                            return Err(e);
                        },
                        Ok(x) => {
                            out.push(x);
                            i = i + 1;
                        },
                    }
                }
                proof {
                    assert(svals.skip(svals.len() as int) =~= Seq::<u128>::empty());
                }
                Ok(out)
            },
            _ => Err(
                Error::UnexpectedType {
                    want: LogicalType::PackedRepeatedFields,
                    got: ld_logical(ty),
                },
            ),
        }
    }

    fn into_length_delimited(self, ty: TypeLengthDelimited) -> (r: Result<Vec<u8>, Error>) {
        match ty {
            TypeLengthDelimited::PackedRepeatedFields(AllowedPakcedType::Variant(tv)) => {
                let ghost elems: Seq<T> = self@;
                let mut us: Vec<u128> = Vec::new();
                let mut i: usize = 0;
                proof {
                    assert(elems.skip(0) =~= elems);
                    assert(repeat_bytes(us@) =~= Seq::<u8>::empty());
                    match packed_bytes_spec::<T>(elems, tv) {
                        Some(Ok(rest)) => {
                            assert(repeat_bytes(us@) + rest =~= rest);
                        },
                        _ => {},
                    }
                }
                while i < self.len()
                    invariant
                        i <= self@.len(),
                        us@.len() == i,
                        self@ == elems,
                        ty == TypeLengthDelimited::PackedRepeatedFields(
                            AllowedPakcedType::Variant(tv),
                        ),
                        packed_bytes_spec::<T>(elems, tv) is None || (match packed_bytes_spec::<
                            T,
                        >(elems.skip(i as int), tv) {
                            Option::None => packed_bytes_spec::<T>(elems, tv) is None,
                            Option::Some(Err(e)) => packed_bytes_spec::<T>(elems, tv) == Some(
                                Err::<Seq<u8>, Error>(e),
                            ),
                            Option::Some(Ok(rest)) => packed_bytes_spec::<T>(elems, tv) == Some(
                                Ok::<Seq<u8>, Error>(repeat_bytes(us@) + rest),
                            ),
                        }),
                    decreases self@.len() - i,
                {
                    let ghost pre: Seq<u128> = us@;
                    proof {
                        assert(elems.skip(i as int)[0] == elems[i as int]);
                        assert(elems.skip(i as int).skip(1) =~= elems.skip(i as int + 1));
                    }
                    let res: Result<u128, Error> = self[i].to_variant(tv);
                    match res {
                        Err(e) => {
                            proof {
                                match packed_bytes_spec::<T>(elems, tv) {
                                    Option::None => {},
                                    Option::Some(whole) => {
                                        match elems[i as int].to_variant_spec(tv) {
                                            Option::None => {
                                                assert(packed_bytes_spec::<T>(
                                                    elems.skip(i as int),
                                                    tv,
                                                ) is None);
                                                assert(false);
                                            },
                                            Option::Some(Ok(u2)) => {
                                                assert(res == Ok::<u128, Error>(u2));
                                                assert(false);
                                            },
                                            Option::Some(Err(e3)) => {
                                                assert(packed_bytes_spec::<T>(
                                                    elems.skip(i as int),
                                                    tv,
                                                ) == Some(Err::<Seq<u8>, Error>(e3)));
                                                assert(e == e3);
                                            },
                                        }
                                    },
                                }
                                assert(ty == TypeLengthDelimited::PackedRepeatedFields(
                                    AllowedPakcedType::Variant(tv),
                                ));
                                assert(self.into_ld_spec(ty) == packed_bytes_spec::<T>(
                                    elems,
                                    tv,
                                ));
                                assert(self.into_ld_spec(ty) matches Some(res2) ==> res2
                                    == Err::<Seq<u8>, Error>(e));
                            }
                            return Err(e);
                        },
                        Ok(u) => {
                            us.push(u);
                            proof {
                                crate::encode::lemma_repeat_bytes_snoc(pre, u);
                                match packed_bytes_spec::<T>(elems.skip(i as int + 1), tv) {
                                    Some(Ok(rest2)) => {
                                        assert((repeat_bytes(pre) + (varint_bytes(u) + rest2))
                                            =~= (repeat_bytes(pre) + varint_bytes(u)) + rest2);
                                    },
                                    _ => {},
                                }
                            }
                            i = i + 1;
                        },
                    }
                }
                proof {
                    assert(elems.skip(self@.len() as int) =~= Seq::<T>::empty());
                    match packed_bytes_spec::<T>(elems, tv) {
                        Some(Ok(rest)) => {
                            assert(repeat_bytes(us@) + Seq::<u8>::empty() =~= repeat_bytes(us@));
                        },
                        _ => {},
                    }
                }
                let mut buf: Vec<u8> = Vec::new();
                let _r = encode_repeat(&mut buf, us);
                Ok(buf)
            },
            _ => Err(
                Error::UnexpectedType {
                    want: LogicalType::PackedRepeatedFields,
                    got: ld_logical(ty),
                },
            ),
        }
    }
}

impl<T: Proto> LengthDelimitedToValue for T {
    open spec fn from_ld_spec_err(input: Seq<u8>, ty: TypeLengthDelimited) -> Option<
        Option<Error>,
    > {
        match ty {
            TypeLengthDelimited::EmbeddedMessages => Option::None,
            _ => Some(
                Option::Some(
                    Error::UnexpectedType {
                        want: LogicalType::EmbeddedMessages,
                        got: spec_ld_logical(ty),
                    },
                ),
            ),
        }
    }

    open spec fn from_ld_ok(input: Seq<u8>, ty: TypeLengthDelimited, r: T) -> bool {
        true
    }

    open spec fn into_ld_spec(self, ty: TypeLengthDelimited) -> Option<Result<Seq<u8>, Error>> {
        match ty {
            TypeLengthDelimited::EmbeddedMessages => Option::None,
            _ => Some(
                Err(
                    Error::UnexpectedType {
                        want: LogicalType::EmbeddedMessages,
                        got: spec_ld_logical(ty),
                    },
                ),
            ),
        }
    }

    fn from_length_delimited(input: Vec<u8>, ty: TypeLengthDelimited) -> (r: Result<T, Error>) {
        match ty {
            TypeLengthDelimited::EmbeddedMessages => T::parse(input.as_slice()),
            _ => Err(
                Error::UnexpectedType {
                    want: LogicalType::EmbeddedMessages,
                    got: ld_logical(ty),
                },
            ),
        }
    }

    fn into_length_delimited(self, ty: TypeLengthDelimited) -> (r: Result<Vec<u8>, Error>) {
        match ty {
            TypeLengthDelimited::EmbeddedMessages => self.bytes(),
            _ => Err(
                Error::UnexpectedType {
                    want: LogicalType::EmbeddedMessages,
                    got: ld_logical(ty),
                },
            ),
        }
    }
}

/// Bidirectional conversion between a wire payload (`Self`) and a semantic
/// value (`Output`), directed by the payload family's logical type tag.
/// `parse_spec_err`/`from_spec_err` name the exact error, `Some(None)` for
/// success, or `None` where the result is left open; the `_ok` predicates
/// pin what a successful result must be.
pub trait Parser<Output>: Sized {
    type Type;

    spec fn parse_spec_err(&self, ty: Self::Type) -> Option<Option<Error>>;

    spec fn parse_ok(&self, ty: Self::Type, output: Output) -> bool;

    spec fn from_spec_err(input: Output, ty: Self::Type) -> Option<Option<Error>>;

    spec fn from_ok(input: Output, ty: Self::Type, r: Self) -> bool;

    /// Converts the wire payload to a semantic value.
    fn parse(&self, ty: Self::Type) -> (r: Result<Output, Error>)
        ensures
            match self.parse_spec_err(ty) {
                Some(Some(e)) => r == Err::<Output, Error>(e),
                Some(None) => r matches Ok(v) && self.parse_ok(ty, v),
                None => true,
            },
    ;

    /// Converts a semantic value to a wire payload.
    fn from(input: Output, ty: Self::Type) -> (r: Result<Self, Error>)
        ensures
            match Self::from_spec_err(input, ty) {
                Some(Some(e)) => r == Err::<Self, Error>(e),
                Some(None) => r matches Ok(v) && Self::from_ok(input, ty, v),
                None => true,
            },
    ;
}

impl<T: VariantToValue> Parser<T> for WireDataVarint {
    type Type = TypeVairant;

    open spec fn parse_spec_err(&self, ty: TypeVairant) -> Option<Option<Error>> {
        spec_outcome(T::from_valint_spec(self.value, ty))
    }

    open spec fn parse_ok(&self, ty: TypeVairant, output: T) -> bool {
        T::from_valint_spec(self.value, ty) == Some(Ok::<T, Error>(output))
    }

    open spec fn from_spec_err(input: T, ty: TypeVairant) -> Option<Option<Error>> {
        spec_outcome(input.to_variant_spec(ty))
    }

    open spec fn from_ok(input: T, ty: TypeVairant, r: WireDataVarint) -> bool {
        input.to_variant_spec(ty) == Some(Ok::<u128, Error>(r.value))
    }

    fn parse(&self, ty: TypeVairant) -> (r: Result<T, Error>) {
        T::from_valint(self.value, ty)
    }

    fn from(input: T, ty: TypeVairant) -> (r: Result<WireDataVarint, Error>) {
        match input.to_variant(ty) {
            Ok(u) => Ok(WireDataVarint::new(u)),
            Err(e) => Err(e),
        }
    }
}

impl<T: Bit64ToValue> Parser<T> for WireDataBit64 {
    type Type = TypeBit64;

    open spec fn parse_spec_err(&self, ty: TypeBit64) -> Option<Option<Error>> {
        spec_outcome(T::from_bit64_spec(self.value@, ty))
    }

    open spec fn parse_ok(&self, ty: TypeBit64, output: T) -> bool {
        T::from_bit64_spec(self.value@, ty) == Some(Ok::<T, Error>(output))
    }

    open spec fn from_spec_err(input: T, ty: TypeBit64) -> Option<Option<Error>> {
        spec_outcome(input.to_bit64_spec(ty))
    }

    open spec fn from_ok(input: T, ty: TypeBit64, r: WireDataBit64) -> bool {
        input.to_bit64_spec(ty) matches Some(Ok(s)) && r.value@ == s
    }

    fn parse(&self, ty: TypeBit64) -> (r: Result<T, Error>) {
        T::from_bit64(self.value, ty)
    }

    fn from(input: T, ty: TypeBit64) -> (r: Result<WireDataBit64, Error>) {
        match input.to_bit64(ty) {
            Ok(arr) => Ok(WireDataBit64::new(arr)),
            Err(e) => Err(e),
        }
    }
}

impl<T: LengthDelimitedToValue> Parser<T> for WireDataLengthDelimited {
    type Type = TypeLengthDelimited;

    open spec fn parse_spec_err(&self, ty: TypeLengthDelimited) -> Option<Option<Error>> {
        T::from_ld_spec_err(self.value@, ty)
    }

    open spec fn parse_ok(&self, ty: TypeLengthDelimited, output: T) -> bool {
        T::from_ld_ok(self.value@, ty, output)
    }

    open spec fn from_spec_err(input: T, ty: TypeLengthDelimited) -> Option<Option<Error>> {
        spec_outcome(input.into_ld_spec(ty))
    }

    open spec fn from_ok(input: T, ty: TypeLengthDelimited, r: WireDataLengthDelimited) -> bool {
        input.into_ld_spec(ty) matches Some(Ok(s)) && r.value@ == s
    }

    fn parse(&self, ty: TypeLengthDelimited) -> (r: Result<T, Error>) {
        let copy: Vec<u8> = vstd::slice::slice_to_vec(self.value.as_slice());
        T::from_length_delimited(copy, ty)
    }

    fn from(input: T, ty: TypeLengthDelimited) -> (r: Result<WireDataLengthDelimited, Error>) {
        match input.into_length_delimited(ty) {
            Ok(v) => Ok(WireDataLengthDelimited::new(v)),
            Err(e) => Err(e),
        }
    }
}

impl<T: Bit32ToValue> Parser<T> for WireDataBit32 {
    type Type = TypeBit32;

    open spec fn parse_spec_err(&self, ty: TypeBit32) -> Option<Option<Error>> {
        spec_outcome(T::from_bit32_spec(self.value@, ty))
    }

    open spec fn parse_ok(&self, ty: TypeBit32, output: T) -> bool {
        T::from_bit32_spec(self.value@, ty) == Some(Ok::<T, Error>(output))
    }

    open spec fn from_spec_err(input: T, ty: TypeBit32) -> Option<Option<Error>> {
        spec_outcome(input.to_bit32_spec(ty))
    }

    open spec fn from_ok(input: T, ty: TypeBit32, r: WireDataBit32) -> bool {
        input.to_bit32_spec(ty) matches Some(Ok(s)) && r.value@ == s
    }

    fn parse(&self, ty: TypeBit32) -> (r: Result<T, Error>) {
        T::from_bit64(self.value, ty)
    }

    fn from(input: T, ty: TypeBit32) -> (r: Result<WireDataBit32, Error>) {
        match input.to_bit64(ty) {
            Ok(arr) => Ok(WireDataBit32::new(arr)),
            Err(e) => Err(e),
        }
    }
}

/// Law: a 32-bit signed value round-trips through a varint payload under
/// either of its logical types, direct or ZigZag.
pub proof fn lemma_i32_varint_roundtrip(n: i32, ty: TypeVairant)
    requires
        ty == TypeVairant::Int32 || ty == TypeVairant::Sint32,
    ensures
        n.to_variant_spec(ty) matches Some(Ok(u)) && <i32 as VariantToValue>::from_valint_spec(
            u,
            ty,
        ) == Some(Ok::<i32, Error>(n)),
{
    if ty == TypeVairant::Int32 {
        let u = i64_as_u64(n as i64) as u128;
        assert(u <= u64::MAX as u128);
        assert(u64_as_i64(u as u64) == n as i64);
    } else {
        crate::zigzag::lemma_zigzag_roundtrip_i32(n);
    }
}

/// Law: a 64-bit signed value round-trips through a varint payload under
/// either of its logical types, direct or ZigZag.
pub proof fn lemma_i64_varint_roundtrip(n: i64, ty: TypeVairant)
    requires
        ty == TypeVairant::Int64 || ty == TypeVairant::Sint64,
    ensures
        n.to_variant_spec(ty) matches Some(Ok(u)) && <i64 as VariantToValue>::from_valint_spec(
            u,
            ty,
        ) == Some(Ok::<i64, Error>(n)),
{
    if ty == TypeVairant::Int64 {
        let u = i64_as_u64(n) as u128;
        assert(u <= u64::MAX as u128);
        assert(u64_as_i64(u as u64) == n);
    } else {
        crate::zigzag::lemma_zigzag_roundtrip_i64(n);
    }
}

/// Law: a 32-bit unsigned value round-trips through a varint payload.
pub proof fn lemma_u32_varint_roundtrip(n: u32)
    ensures
        n.to_variant_spec(TypeVairant::Uint32) matches Some(Ok(u))
            && <u32 as VariantToValue>::from_valint_spec(u, TypeVairant::Uint32) == Some(
            Ok::<u32, Error>(n),
        ),
{
}

/// Law: a 64-bit unsigned value round-trips through a varint payload.
pub proof fn lemma_u64_varint_roundtrip(n: u64)
    ensures
        n.to_variant_spec(TypeVairant::Uint64) matches Some(Ok(u))
            && <u64 as VariantToValue>::from_valint_spec(u, TypeVairant::Uint64) == Some(
            Ok::<u64, Error>(n),
        ),
{
}

/// Law: a boolean round-trips through a varint payload.
pub proof fn lemma_bool_varint_roundtrip(b: bool)
    ensures
        b.to_variant_spec(TypeVairant::Bool) matches Some(Ok(u))
            && <bool as VariantToValue>::from_valint_spec(u, TypeVairant::Bool) == Some(
            Ok::<bool, Error>(b),
        ),
{
}

/// Law: a 64-bit unsigned value round-trips through an eight-byte fixed
/// payload.
pub proof fn lemma_u64_bit64_roundtrip(n: u64)
    ensures
        n.to_bit64_spec(TypeBit64::Fixed64) matches Some(Ok(s))
            && <u64 as Bit64ToValue>::from_bit64_spec(s, TypeBit64::Fixed64) == Some(
            Ok::<u64, Error>(n),
        ),
{
    vstd::bytes::lemma_auto_spec_u64_to_from_le_bytes();
}

/// Law: a 64-bit signed value round-trips through an eight-byte fixed
/// payload.
pub proof fn lemma_i64_bit64_roundtrip(n: i64)
    ensures
        n.to_bit64_spec(TypeBit64::Sfixed64) matches Some(Ok(s))
            && <i64 as Bit64ToValue>::from_bit64_spec(s, TypeBit64::Sfixed64) == Some(
            Ok::<i64, Error>(n),
        ),
{
    vstd::bytes::lemma_auto_spec_u64_to_from_le_bytes();
    assert(u64_as_i64(i64_as_u64(n)) == n);
}

/// Law: a 32-bit unsigned value round-trips through a four-byte fixed
/// payload.
pub proof fn lemma_u32_bit32_roundtrip(n: u32)
    ensures
        n.to_bit32_spec(TypeBit32::Fixed32) matches Some(Ok(s))
            && <u32 as Bit32ToValue>::from_bit32_spec(s, TypeBit32::Fixed32) == Some(
            Ok::<u32, Error>(n),
        ),
{
    vstd::bytes::lemma_auto_spec_u32_to_from_le_bytes();
    let bs = vstd::bytes::spec_u32_to_le_bytes(n);
    assert(bs.len() == 4);
    assert(vstd::bytes::spec_u32_from_le_bytes(bs) == n);
}

/// Law: a 32-bit signed value round-trips through a four-byte fixed
/// payload.
pub proof fn lemma_i32_bit32_roundtrip(n: i32)
    ensures
        n.to_bit32_spec(TypeBit32::Sfixed32) matches Some(Ok(s))
            && <i32 as Bit32ToValue>::from_bit32_spec(s, TypeBit32::Sfixed32) == Some(
            Ok::<i32, Error>(n),
        ),
{
    vstd::bytes::lemma_auto_spec_u32_to_from_le_bytes();
    let u = i32_as_u32(n);
    let bs = vstd::bytes::spec_u32_to_le_bytes(u);
    assert(bs.len() == 4);
    assert(vstd::bytes::spec_u32_from_le_bytes(bs) == u);
    assert(u32_as_i32(i32_as_u32(n)) == n);
}

/// Law: a string round-trips through a length-delimited payload — its
/// UTF-8 encoding is valid, and decoding it gives the characters back.
pub proof fn lemma_string_roundtrip(s: String)
    ensures
        s.into_ld_spec(TypeLengthDelimited::WireString) matches Some(Ok(bytes))
            && <String as LengthDelimitedToValue>::from_ld_spec_err(
            bytes,
            TypeLengthDelimited::WireString,
        ) == Some(Option::None::<Error>) && (forall|r: String|
            <String as LengthDelimitedToValue>::from_ld_ok(
                bytes,
                TypeLengthDelimited::WireString,
                r,
            ) ==> r@ == s@),
{
    broadcast use vstd::utf8::encode_utf8_valid_utf8, vstd::utf8::encode_utf8_decode_utf8;

    assert(vstd::utf8::valid_utf8(vstd::utf8::encode_utf8(s@)));
    assert(vstd::utf8::decode_utf8(vstd::utf8::encode_utf8(s@)) == s@);
}

/// Law: an opaque byte blob round-trips through a length-delimited payload
/// unchanged.
pub proof fn lemma_bytes_roundtrip(v: Vec<u8>)
    ensures
        v.into_ld_spec(TypeLengthDelimited::Bytes) matches Some(Ok(bytes))
            && <Vec<u8> as LengthDelimitedToValue>::from_ld_spec_err(
            bytes,
            TypeLengthDelimited::Bytes,
        ) == Some(Option::None::<Error>) && (forall|r: Vec<u8>|
            <Vec<u8> as LengthDelimitedToValue>::from_ld_ok(
                bytes,
                TypeLengthDelimited::Bytes,
                r,
            ) ==> r@ == v@),
{
}

/// The varint value each element of a packed sequence converts to, where
/// every element's conversion succeeds.
pub open spec fn packed_values_spec<T: VariantToValue>(elems: Seq<T>, tv: TypeVairant) -> Seq<
    u128,
> {
    Seq::new(
        elems.len(),
        |i: int|
            match elems[i].to_variant_spec(tv) {
                Some(Ok(u)) => u,
                _ => 0,
            },
    )
}

/// When every element converts, the packed payload is the concatenation of
/// the elements' varint encodings.
proof fn lemma_packed_bytes_values<T: VariantToValue>(elems: Seq<T>, tv: TypeVairant)
    requires
        forall|i: int|
            0 <= i < elems.len() ==> (#[trigger] elems[i].to_variant_spec(tv)) matches Some(
                Ok(u),
            ),
    ensures
        packed_bytes_spec::<T>(elems, tv) == Some(
            Ok::<Seq<u8>, Error>(repeat_bytes(packed_values_spec::<T>(elems, tv))),
        ),
    decreases elems.len(),
{
    let us = packed_values_spec::<T>(elems, tv);
    if elems.len() == 0 {
        assert(us =~= Seq::<u128>::empty());
        assert(repeat_bytes(us) =~= Seq::<u8>::empty());
    } else {
        assert(elems[0].to_variant_spec(tv) matches Some(Ok(u)));
        match elems[0].to_variant_spec(tv) {
            Some(Ok(u)) => {
                assert(forall|i: int|
                    0 <= i < elems.skip(1).len() ==> elems.skip(1)[i] == elems[i + 1]);
                lemma_packed_bytes_values::<T>(elems.skip(1), tv);
                assert(us.skip(1) =~= packed_values_spec::<T>(elems.skip(1), tv));
                assert(us[0] == u);
                assert(repeat_bytes(us) == varint_bytes(u) + repeat_bytes(us.skip(1)));
            },
            _ => {
                assert(false);
            },
        }
    }
}

/// When every value converts back, the elementwise conversion of a packed
/// run reports success.
proof fn lemma_map_valint_ok<T: VariantToValue>(us: Seq<u128>, tv: TypeVairant)
    requires
        forall|i: int|
            0 <= i < us.len() ==> (#[trigger] T::from_valint_spec(us[i], tv)) matches Some(
                Ok(v),
            ),
    ensures
        map_valint_err::<T>(us, tv) == Some(Option::None::<Error>),
    decreases us.len(),
{
    if us.len() > 0 {
        assert(T::from_valint_spec(us[0], tv) matches Some(Ok(v)));
        assert(forall|i: int| 0 <= i < us.skip(1).len() ==> us.skip(1)[i] == us[i + 1]);
        lemma_map_valint_ok::<T>(us.skip(1), tv);
        match T::from_valint_spec(us[0], tv) {
            Some(Ok(_)) => {},
            _ => {
                assert(false);
            },
        }
    }
}

/// Law: a packed repeated array round-trips — when every element converts
/// to a positive varint value and that value converts back to the element,
/// the packed payload decodes to exactly the original elements, in order.
/// Elements whose varint value is zero are excluded: a zero value encodes
/// to no bytes and would vanish from the payload.
pub proof fn lemma_packed_roundtrip<T: VariantToValue>(elems: Seq<T>, tv: TypeVairant)
    requires
        forall|i: int|
            0 <= i < elems.len() ==> ((#[trigger] elems[i].to_variant_spec(tv)) matches Some(
                Ok(u),
            ) && u >= 1 && T::from_valint_spec(u, tv) == Some(Ok::<T, Error>(elems[i]))),
    ensures
        packed_bytes_spec::<T>(elems, tv) matches Some(Ok(bytes))
            && <Vec<T> as LengthDelimitedToValue>::from_ld_spec_err(
            bytes,
            TypeLengthDelimited::PackedRepeatedFields(AllowedPakcedType::Variant(tv)),
        ) == Some(Option::None::<Error>) && (forall|r: Vec<T>|
            <Vec<T> as LengthDelimitedToValue>::from_ld_ok(
                bytes,
                TypeLengthDelimited::PackedRepeatedFields(AllowedPakcedType::Variant(tv)),
                r,
            ) ==> r@ == elems),
{
    let ty = TypeLengthDelimited::PackedRepeatedFields(AllowedPakcedType::Variant(tv));
    let us = packed_values_spec::<T>(elems, tv);
    lemma_packed_bytes_values::<T>(elems, tv);
    let bytes = repeat_bytes(us);
    assert(forall|i: int| 0 <= i < us.len() ==> (#[trigger] us[i]) >= 1) by {
        assert forall|i: int| 0 <= i < us.len() implies (#[trigger] us[i]) >= 1 by {
            assert(elems[i].to_variant_spec(tv) matches Some(Ok(u)) && u >= 1);
        }
    }
    crate::laws::lemma_repeat_roundtrip(us);
    assert(forall|i: int|
        0 <= i < us.len() ==> (#[trigger] T::from_valint_spec(us[i], tv)) matches Some(Ok(v)))
        by {
        assert forall|i: int|
            0 <= i < us.len() implies (#[trigger] T::from_valint_spec(us[i], tv)) matches Some(
            Ok(v),
        ) by {
            assert(elems[i].to_variant_spec(tv) matches Some(Ok(u)) && T::from_valint_spec(
                u,
                tv,
            ) == Some(Ok::<T, Error>(elems[i])));
        }
    }
    lemma_map_valint_ok::<T>(us, tv);
    assert forall|r: Vec<T>|
        <Vec<T> as LengthDelimitedToValue>::from_ld_ok(bytes, ty, r) implies r@ == elems by {
        assert(parse_varints_all(bytes, 0) == Ok::<Seq<u128>, Error>(us));
        assert forall|j: int| 0 <= j < r@.len() implies r@[j] == elems[j] by {
            assert(T::from_valint_spec(us[j], tv) == Some(Ok::<T, Error>(r@[j])));
            assert(elems[j].to_variant_spec(tv) matches Some(Ok(u)) && T::from_valint_spec(
                u,
                tv,
            ) == Some(Ok::<T, Error>(elems[j])));
        }
        assert(r@ =~= elems);
    }
}

} // verus!
