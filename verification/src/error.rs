use vstd::prelude::*;

verus! {

/// A flat name for every logical interpretation a wire value can be asked
/// for.  Mismatch errors carry a pair of these so that a caller can see what
/// was requested and what would have been accepted.
#[derive(Debug, Clone, Copy, PartialEq, Eq, Structural)]
pub enum LogicalType {
    Int32,
    Int64,
    Uint32,
    Uint64,
    Sint32,
    Sint64,
    Bool,
    Enum,
    Fixed64,
    Sfixed64,
    Double,
    Fixed32,
    Sfixed32,
    Float,
    WireString,
    Bytes,
    EmbeddedMessages,
    PackedRepeatedFields,
}

/// Everything that can go wrong while encoding or decoding.  Every variant
/// carries plain data, so contracts can pin the exact error value returned.
#[derive(Debug, Clone, Copy, PartialEq, Eq, Structural)]
pub enum Error {
    /// A varint ended before a byte with a clear continuation bit, or its
    /// value does not fit in 128 bits.
    UnexpectedFormat,
    /// A payload declared `needed` bytes but only `remaining` bytes were left.
    Truncated { needed: u128, remaining: u128 },
    /// A tag carried a wire-type discriminant other than 0, 1, 2 or 5.
    UnexpectedWireDataValue(u128),
    /// A packed payload of `want` bytes ended with an element running past
    /// the boundary, at `got` bytes consumed.
    UnexpectedRepeatSize(u128, u128),
    /// The requested logical type does not fit the wire value present.
    UnexpectedType { want: LogicalType, got: LogicalType },
    /// A numeric narrowing did not fit: `value` exceeds `max`.
    ValueTooLarge { value: u128, max: u128 },
    /// A signed narrowing did not fit the target range.
    ValueOutOfRange { found: i128, lower: i128, upper: i128 },
    /// A string payload held bytes that are not valid UTF-8.
    InvalidUtf8,
}

impl Error {
    /// Renders the error for human eyes.
    /// Relies on std's `format!` to write the carried values into the text.
    #[verifier::external_body]
    pub fn message(&self) -> String {
        match self {
            Error::UnexpectedFormat => format!("unexpected format. end came before MSB cleared"),
            Error::Truncated { needed, remaining } => format!("truncated payload. needed={needed}, remaining={remaining}"),
            Error::UnexpectedWireDataValue(v) => format!("no expected type value. got={v}"),
            Error::UnexpectedRepeatSize(got, want) => format!("unexpected repeat size. got={got}, want={want}"),
            Error::UnexpectedType { want, got } => format!("unexpected type. got={got:?}, want={want:?}"),
            Error::ValueTooLarge { value, max } => format!("value too large. value={value}, max={max}"),
            Error::ValueOutOfRange { found, lower, upper } => format!("value out of range. found={found}, lower={lower}, upper={upper}"),
            Error::InvalidUtf8 => format!("invalid utf-8 sequence"),
        }
    }
}

} // verus!
