use vstd::prelude::*;

use crate::encode::{pow128, spec_views, varint_bytes};
use crate::error::Error;
use crate::wire::{
    SpecWireStruct, WireData, WireDataBit32, WireDataBit64, WireDataLengthDelimited,
    WireDataVarint, WireStruct,
};

verus! {

/// The position just past the varint that starts at `pos`: the index after
/// the first byte with a clear continuation bit.  `None` when the buffer
/// ends while the continuation bit is still set.
pub open spec fn varint_end(s: Seq<u8>, pos: int) -> Option<int>
    decreases s.len() - pos,
{
    if pos < 0 || pos >= s.len() {
        None
    } else if s[pos] < 128 {
        Some(pos + 1)
    } else {
        varint_end(s, pos + 1)
    }
}

/// The value carried by the seven-bit groups of the bytes in `[pos, end)`,
/// least-significant group first, as an unbounded natural number.
pub open spec fn varint_nat(s: Seq<u8>, pos: int, end: int) -> nat
    decreases end - pos,
{
    if pos < end {
        (s[pos] % 128) as nat + 128 * varint_nat(s, pos + 1, end)
    } else {
        0
    }
}

/// One varint parsed at `pos`: its value and the position just after it.
/// Fails when the buffer ends before the continuation bit clears, and on
/// varints too wide for 128 bits (more than 19 bytes, or a 19-byte varint
/// whose value overflows).
pub open spec fn parse_varint(s: Seq<u8>, pos: int) -> Result<(u128, int), Error> {
    match varint_end(s, pos) {
        Option::None => Err(Error::UnexpectedFormat),
        Option::Some(end) => if end - pos <= 19 && varint_nat(s, pos, end) <= u128::MAX as nat {
            Ok((varint_nat(s, pos, end) as u128, end))
        } else {
            Err(Error::UnexpectedFormat)
        },
    }
}

/// A tag parsed at `pos`: one varint, split into the field number (high
/// bits) and the wire-type discriminant (low three bits).
pub open spec fn parse_tag(s: Seq<u8>, pos: int) -> Result<((u128, u128), int), Error> {
    match parse_varint(s, pos) {
        Err(e) => Err(e),
        Ok((n, end)) => Ok(((n / 8, n % 8), end)),
    }
}

/// A length-delimited payload parsed at `pos`: a varint byte count, then
/// exactly that many bytes.  Fails when fewer bytes remain than declared.
pub open spec fn parse_length_delimited(s: Seq<u8>, pos: int) -> Result<(Seq<u8>, int), Error> {
    match parse_varint(s, pos) {
        Err(e) => Err(e),
        Ok((n, end)) => if n as int <= s.len() - end {
            Ok((s.subrange(end, end + n as int), end + n as int))
        } else {
            Err(Error::Truncated { needed: n, remaining: (s.len() - end) as u128 })
        },
    }
}

/// A fixed-width payload of `width` bytes parsed at `pos`.
pub open spec fn parse_fixed(s: Seq<u8>, pos: int, width: int) -> Result<(Seq<u8>, int), Error> {
    if pos + width <= s.len() {
        Ok((s.subrange(pos, pos + width), pos + width))
    } else {
        Err(
            Error::Truncated {
                needed: width as u128,
                remaining: if pos <= s.len() {
                    (s.len() - pos) as u128
                } else {
                    0
                },
            },
        )
    }
}

/// The payload following a tag, in the shape the wire-type discriminant
/// `wt` dictates.  Discriminants other than 0, 1, 2 and 5 are rejected.
pub open spec fn parse_payload(s: Seq<u8>, pos: int, wt: u128) -> Result<
    (crate::wire::SpecWireData, int),
    Error,
> {
    if wt == 0 {
        match parse_varint(s, pos) {
            Err(e) => Err(e),
            Ok((v, end)) => Ok((crate::wire::SpecWireData::Varint(v), end)),
        }
    } else if wt == 1 {
        match parse_fixed(s, pos, 8) {
            Err(e) => Err(e),
            Ok((b, end)) => Ok((crate::wire::SpecWireData::Bit64(b), end)),
        }
    } else if wt == 2 {
        match parse_length_delimited(s, pos) {
            Err(e) => Err(e),
            Ok((b, end)) => Ok((crate::wire::SpecWireData::LengthDelimited(b), end)),
        }
    } else if wt == 5 {
        match parse_fixed(s, pos, 4) {
            Err(e) => Err(e),
            Ok((b, end)) => Ok((crate::wire::SpecWireData::Bit32(b), end)),
        }
    } else {
        Err(Error::UnexpectedWireDataValue(wt))
    }
}

/// One tagged field parsed at `pos`: its tag, then its payload.
pub open spec fn parse_struct(s: Seq<u8>, pos: int) -> Result<
    (crate::wire::SpecWireStruct, int),
    Error,
> {
    match parse_tag(s, pos) {
        Err(e) => Err(e),
        Ok(((field_number, wt), p1)) => match parse_payload(s, p1, wt) {
            Err(e) => Err(e),
            Ok((data, p2)) => Ok((crate::wire::SpecWireStruct { field_number, data }, p2)),
        },
    }
}

/// A frame parsed from `pos` to the end of the buffer: tagged fields back
/// to back, ending exactly at the buffer end.  A cursor left mid-field is a
/// hard failure, never a partial result.
pub open spec fn parse_frame_from(s: Seq<u8>, pos: int) -> Result<
    Seq<crate::wire::SpecWireStruct>,
    Error,
>
    decreases s.len() - pos,
{
    if pos >= s.len() {
        Ok(Seq::empty())
    } else {
        match parse_struct(s, pos) {
            Err(e) => Err(e),
            Ok((ws, p2)) => if pos < p2 <= s.len() {
                match parse_frame_from(s, p2) {
                    Err(e) => Err(e),
                    Ok(rest) => Ok(seq![ws] + rest),
                }
            } else {
                Err(Error::UnexpectedFormat)
            },
        }
    }
}

/// A whole buffer parsed as one frame.
pub open spec fn parse_frame(s: Seq<u8>) -> Result<Seq<crate::wire::SpecWireStruct>, Error> {
    parse_frame_from(s, 0)
}

/// Back-to-back varints covering the whole range from `pos` to the buffer
/// end, as a packed repeated payload holds them.
pub open spec fn parse_varints_all(s: Seq<u8>, pos: int) -> Result<Seq<u128>, Error>
    decreases s.len() - pos,
{
    if pos >= s.len() {
        Ok(Seq::empty())
    } else {
        match parse_varint(s, pos) {
            Err(e) => Err(e),
            Ok((v, end)) => if pos < end <= s.len() {
                match parse_varints_all(s, end) {
                    Err(e) => Err(e),
                    Ok(rest) => Ok(seq![v] + rest),
                }
            } else {
                Err(Error::UnexpectedFormat)
            },
        }
    }
}

/// A found varint end lies past its start and within the buffer.
pub proof fn lemma_varint_end_bounds(s: Seq<u8>, pos: int)
    requires
        varint_end(s, pos) is Some,
    ensures
        pos < varint_end(s, pos)->Some_0 <= s.len(),
    decreases s.len() - pos,
{
    if !(pos < 0 || pos >= s.len()) && s[pos] >= 128 {
        lemma_varint_end_bounds(s, pos + 1);
    }
}

/// Group values split at any midpoint: the low groups plus the high groups
/// scaled by the base raised to the number of low bytes.
pub proof fn lemma_varint_nat_split(s: Seq<u8>, pos: int, mid: int, end: int)
    requires
        pos <= mid <= end,
    ensures
        varint_nat(s, pos, end) == varint_nat(s, pos, mid) + pow128((mid - pos) as nat)
            * varint_nat(s, mid, end),
    decreases mid - pos,
{
    if pos == mid {
        assert(pow128(0) == 1);
        assert(varint_nat(s, pos, mid) == 0);
        assert(1 * varint_nat(s, mid, end) == varint_nat(s, mid, end)) by (nonlinear_arith);
    } else {
        lemma_varint_nat_split(s, pos + 1, mid, end);
        let g = (s[pos] % 128) as nat;
        let k = (mid - pos - 1) as nat;
        let hi = varint_nat(s, mid, end);
        assert(varint_nat(s, pos + 1, end) == varint_nat(s, pos + 1, mid) + pow128(k) * hi);
        assert(varint_nat(s, pos, end) == g + 128 * varint_nat(s, pos + 1, end));
        assert(128 * (varint_nat(s, pos + 1, mid) + pow128(k) * hi) == 128 * varint_nat(
            s,
            pos + 1,
            mid,
        ) + 128 * (pow128(k) * hi)) by (nonlinear_arith);
        assert(128 * (pow128(k) * hi) == (128 * pow128(k)) * hi) by (nonlinear_arith);
        assert(pow128((mid - pos) as nat) == 128 * pow128(k));
        assert(varint_nat(s, pos, mid) == g + 128 * varint_nat(s, pos + 1, mid));
        assert(varint_nat(s, pos, end) == g + 128 * varint_nat(s, pos + 1, mid) + (128 * pow128(k))
            * hi);
        assert(varint_nat(s, pos, end) == varint_nat(s, pos, mid) + pow128((mid - pos) as nat)
            * varint_nat(s, mid, end));
    }
}

/// The value of `k` groups is below the base raised to `k`.
pub proof fn lemma_varint_nat_bound(s: Seq<u8>, pos: int, end: int)
    requires
        pos <= end,
    ensures
        varint_nat(s, pos, end) < pow128((end - pos) as nat),
    decreases end - pos,
{
    if pos < end {
        lemma_varint_nat_bound(s, pos + 1, end);
        let g = (s[pos] % 128) as nat;
        let rec = varint_nat(s, pos + 1, end);
        let p = pow128((end - pos - 1) as nat);
        assert(g <= 127);
        assert(rec <= p - 1);
        assert(128 * rec <= 128 * (p - 1)) by (nonlinear_arith)
            requires
                rec <= p - 1,
        ;
        assert(pow128((end - pos) as nat) == 128 * p);
    }
}

/// Powers of 128 do not shrink as the exponent grows.
pub proof fn lemma_pow128_mono(a: nat, b: nat)
    requires
        a <= b,
    ensures
        pow128(a) <= pow128(b),
    decreases b,
{
    if a < b {
        lemma_pow128_mono(a, (b - 1) as nat);
        assert(pow128(b) == 128 * pow128((b - 1) as nat));
        assert(pow128((b - 1) as nat) <= 128 * pow128((b - 1) as nat)) by (nonlinear_arith)
            requires
                pow128((b - 1) as nat) >= 0,
        ;
    }
}

/// The concrete powers of 128 the decoder's bound checks lean on.
pub proof fn lemma_pow128_numeric()
    ensures
        pow128(17) == 0x800000000000000000000000000000,
        pow128(18) == 0x40000000000000000000000000000000,
        pow128(19) == 0x2000000000000000000000000000000000,
{
    reveal_with_fuel(pow128, 20);
}

/// Whether an executable varint result agrees with the specification's.
pub open spec fn varint_result_matches(
    r: Result<(u128, usize), Error>,
    p: Result<(u128, int), Error>,
) -> bool {
    match (r, p) {
        (Ok((v, end)), Ok((pv, pend))) => v == pv && end as int == pend,
        (Err(e), Err(pe)) => e == pe,
        _ => false,
    }
}

/// Reads one varint starting at `pos`: seven payload bits per byte until a
/// byte with a clear continuation bit.  Fails with `UnexpectedFormat` when
/// the buffer ends first or the value does not fit in 128 bits.
#[verifier::rlimit(50)]
pub fn decode_variants(data: &[u8], pos: usize) -> (r: Result<(u128, usize), Error>)
    ensures
        varint_result_matches(r, parse_varint(data@, pos as int)),
{
    let len: usize = data.len();
    if pos >= len {
        return Err(Error::UnexpectedFormat);
    }
    let mut i: usize = pos;
    let mut value: u128 = 0;
    let mut mult: u128 = 1;
    proof {
        lemma_pow128_numeric();
    }
    loop
        invariant
            pos <= i <= len,
            len == data@.len(),
            i - pos <= 19,
            varint_end(data@, pos as int) == varint_end(data@, i as int),
            varint_nat(data@, pos as int, pos as int) == 0,
            value as nat == varint_nat(data@, pos as int, i as int),
            i - pos <= 18 ==> mult as nat == pow128((i - pos) as nat),
            pow128(17) == 0x800000000000000000000000000000,
            pow128(18) == 0x40000000000000000000000000000000,
            pow128(19) == 0x2000000000000000000000000000000000,
        decreases len - i,
    {
        if i >= len {
            return Err(Error::UnexpectedFormat);
        }
        let b: u8 = data[i];
        let group: u128 = (b & 0x7f) as u128;
        proof {
            assert(b & 0x7f == b % 128) by (bit_vector);
        }
        let count: usize = i - pos;
        if count >= 19 {
            proof {
                if varint_end(data@, i as int) is Some {
                    lemma_varint_end_bounds(data@, i as int);
                    let e = varint_end(data@, i as int)->Some_0;
                    assert(e - pos as int > 19);
                }
            }
            return Err(Error::UnexpectedFormat);
        }
        proof {
            lemma_varint_nat_bound(data@, pos as int, i as int);
            lemma_pow128_mono((i - pos) as nat, 18);
        }
        if count == 18 && group >= 4 {
            proof {
                if varint_end(data@, i as int) is Some {
                    lemma_varint_end_bounds(data@, i as int);
                    let e = varint_end(data@, i as int)->Some_0;
                    lemma_varint_nat_split(data@, pos as int, i as int, e);
                    assert(varint_nat(data@, i as int, e) >= group as nat);
                    assert(pow128(18) * varint_nat(data@, i as int, e) >= pow128(18) * 4)
                        by (nonlinear_arith)
                        requires
                            varint_nat(data@, i as int, e) >= 4,
                            pow128(18) == 0x40000000000000000000000000000000,
                    ;
                    assert(varint_nat(data@, pos as int, e) > u128::MAX as nat);
                }
            }
            return Err(Error::UnexpectedFormat);
        }
        proof {
            lemma_varint_nat_split(data@, pos as int, i as int, i as int + 1);
            assert(data@[i as int] == b);
            assert(varint_nat(data@, i as int + 1, i as int + 1) == 0);
            assert(varint_nat(data@, i as int, i as int + 1) == (data@[i as int] % 128) as nat + 128
                * varint_nat(data@, i as int + 1, i as int + 1));
            assert(group as nat == (b % 128) as nat);
            assert(varint_nat(data@, i as int, i as int + 1) == group as nat);
            if count < 18 {
                lemma_pow128_mono((i - pos) as nat, 17);
                assert(mult as nat <= pow128(17));
                assert(group as nat * mult as nat <= 127 * pow128(17)) by (nonlinear_arith)
                    requires
                        group as nat <= 127,
                        mult as nat <= pow128(17),
                ;
            }
            if count == 18 {
                assert(group as nat * mult as nat <= 3 * pow128(18)) by (nonlinear_arith)
                    requires
                        group as nat <= 3,
                        mult as nat == pow128(18),
                ;
            }
            assert(pow128((i - pos) as nat) * varint_nat(data@, i as int, i as int + 1) == group
                as nat * mult as nat) by (nonlinear_arith)
                requires
                    mult as nat == pow128((i - pos) as nat),
                    varint_nat(data@, i as int, i as int + 1) == group as nat,
            ;
        }
        let add: u128 = group * mult;
        let value2: u128 = value + add;
        if b < 128 {
            proof {
                assert(varint_end(data@, i as int) == Some(i as int + 1));
                assert(add as nat == group as nat * mult as nat);
                assert(value as nat == varint_nat(data@, pos as int, i as int));
                assert(value2 as nat == value as nat + add as nat);
                assert(pow128((i - pos) as nat) * varint_nat(data@, i as int, i as int + 1)
                    == group as nat * mult as nat) by (nonlinear_arith)
                    requires
                        mult as nat == pow128((i - pos) as nat),
                        varint_nat(data@, i as int, i as int + 1) == group as nat,
                ;
                assert(value2 as nat == varint_nat(data@, pos as int, i as int) + pow128(
                    (i - pos) as nat,
                ) * varint_nat(data@, i as int, i as int + 1));
                assert(varint_nat(data@, pos as int, i as int + 1) == value2 as nat);
            }
            return Ok((value2, i + 1));
        }
        proof {
            assert(add as nat == group as nat * mult as nat);
            assert(value2 as nat == varint_nat(data@, pos as int, i as int) + pow128(
                (i - pos) as nat,
            ) * varint_nat(data@, i as int, i as int + 1));
        }
        if count <= 17 {
            mult = mult * 128;
        }
        value = value2;
        i = i + 1;
        proof {
            assert(data@[i - 1] >= 128);
            assert(varint_end(data@, i - 1) == varint_end(data@, i as int));
        }
    }
}

/// A parsed varint ends past its start and within the buffer.
pub proof fn lemma_parse_varint_progress(s: Seq<u8>, pos: int)
    requires
        parse_varint(s, pos) is Ok,
    ensures
        pos < parse_varint(s, pos)->Ok_0.1 <= s.len(),
{
    lemma_varint_end_bounds(s, pos);
}

/// A parsed field ends past its start and within the buffer.
pub proof fn lemma_parse_struct_progress(s: Seq<u8>, pos: int)
    requires
        parse_struct(s, pos) is Ok,
    ensures
        pos < parse_struct(s, pos)->Ok_0.1 <= s.len(),
{
    lemma_parse_varint_progress(s, pos);
    let p1 = parse_varint(s, pos)->Ok_0.1;
    let wt = parse_tag(s, pos)->Ok_0.0.1;
    if wt == 0 {
        lemma_parse_varint_progress(s, p1);
    } else if wt == 2 {
        lemma_parse_varint_progress(s, p1);
    }
}

/// Reads a length-delimited payload at `pos`: a varint byte count, then an
/// owned copy of exactly that many bytes.
pub fn decode_length_delimited(data: &[u8], pos: usize) -> (r: Result<(Vec<u8>, usize), Error>)
    ensures
        match (r, parse_length_delimited(data@, pos as int)) {
            (Ok((v, end)), Ok((sv, send))) => v@ == sv && end as int == send,
            (Err(e), Err(se)) => e == se,
            _ => false,
        },
{
    let (n, p1) = match decode_variants(data, pos) {
        Ok(x) => x,
        Err(e) => {
            return Err(e);
        },
    };
    proof {
        lemma_parse_varint_progress(data@, pos as int);
    }
    let remaining: usize = data.len() - p1;
    if n > remaining as u128 {
        return Err(Error::Truncated { needed: n, remaining: remaining as u128 });
    }
    let nn: usize = n as usize;
    let piece: &[u8] = vstd::slice::slice_subrange(data, p1, p1 + nn);
    let v: Vec<u8> = vstd::slice::slice_to_vec(piece);
    Ok((v, p1 + nn))
}

/// Reads a fixed-width payload of `SIZE` bytes at `pos`.
pub fn decode_nbit<const SIZE: usize>(data: &[u8], pos: usize) -> (r: Result<
    ([u8; SIZE], usize),
    Error,
>)
    ensures
        match (r, parse_fixed(data@, pos as int, SIZE as int)) {
            (Ok((arr, end)), Ok((sv, send))) => arr@ == sv && end as int == send,
            (Err(e), Err(se)) => e == se,
            _ => false,
        },
{
    broadcast use vstd::array::group_array_axioms;

    let len: usize = data.len();
    if pos > len {
        return Err(Error::Truncated { needed: SIZE as u128, remaining: 0 });
    }
    let rem: usize = len - pos;
    if rem < SIZE {
        return Err(Error::Truncated { needed: SIZE as u128, remaining: rem as u128 });
    }
    let mut buf: [u8; SIZE] = [0; SIZE];
    let mut k: usize = 0;
    while k < SIZE
        invariant
            k <= SIZE,
            len == data@.len(),
            pos + SIZE <= len,
            buf@.len() == SIZE,
            forall|j: int| 0 <= j < k ==> buf@[j] == data@[pos + j],
        decreases SIZE - k,
    {
        buf[k] = data[pos + k];
        k = k + 1;
    }
    proof {
        assert(buf@ =~= data@.subrange(pos as int, pos as int + SIZE as int));
    }
    Ok((buf, pos + SIZE))
}

/// Reads the four bytes of a 32-bit fixed payload at `pos`.
pub fn decode_32bit(data: &[u8], pos: usize) -> (r: Result<([u8; 4], usize), Error>)
    ensures
        match (r, parse_fixed(data@, pos as int, 4)) {
            (Ok((arr, end)), Ok((sv, send))) => arr@ == sv && end as int == send,
            (Err(e), Err(se)) => e == se,
            _ => false,
        },
{
    decode_nbit::<4>(data, pos)
}

/// Reads the eight bytes of a 64-bit fixed payload at `pos`.
pub fn decode_64bit(data: &[u8], pos: usize) -> (r: Result<([u8; 8], usize), Error>)
    ensures
        match (r, parse_fixed(data@, pos as int, 8)) {
            (Ok((arr, end)), Ok((sv, send))) => arr@ == sv && end as int == send,
            (Err(e), Err(se)) => e == se,
            _ => false,
        },
{
    decode_nbit::<8>(data, pos)
}

/// Decodes a buffer holding nothing but varints back to back, as a packed
/// repeated payload holds them.
pub fn decode_variants_slice(data: &[u8]) -> (r: Result<Vec<u128>, Error>)
    ensures
        match (r, parse_varints_all(data@, 0)) {
            (Ok(v), Ok(m)) => v@ == m,
            (Err(e), Err(se)) => e == se,
            _ => false,
        },
{
    let mut v: Vec<u128> = Vec::new();
    let mut pos: usize = 0;
    proof {
        assert(v@ + parse_varints_all(data@, 0)->Ok_0 =~= parse_varints_all(data@, 0)->Ok_0);
    }
    while pos < data.len()
        invariant
            pos <= data@.len(),
            match parse_varints_all(data@, pos as int) {
                Ok(rest) => parse_varints_all(data@, 0) == Ok::<Seq<u128>, Error>(v@ + rest),
                Err(e) => parse_varints_all(data@, 0) == Err::<Seq<u128>, Error>(e),
            },
        decreases data@.len() - pos,
    {
        let ghost pre: Seq<u128> = v@;
        match decode_variants(data, pos) {
            Err(e) => {
                return Err(e);
            },
            Ok((value, p2)) => {
                proof {
                    lemma_parse_varint_progress(data@, pos as int);
                }
                v.push(value);
                proof {
                    match parse_varints_all(data@, p2 as int) {
                        Ok(rest2) => {
                            assert(parse_varints_all(data@, pos as int) == Ok::<
                                Seq<u128>,
                                Error,
                            >(seq![value] + rest2));
                            assert(pre + (seq![value] + rest2) =~= v@ + rest2);
                        },
                        Err(e) => {},
                    }
                }
                pos = p2;
            },
        }
    }
    proof {
        assert(parse_varints_all(data@, pos as int) == Ok::<Seq<u128>, Error>(Seq::empty()));
        assert(v@ + Seq::<u128>::empty() =~= v@);
    }
    Ok(v)
}

/// Reads a tag at `pos`: one varint split into the field number and the
/// wire-type discriminant.
pub fn decode_tag(data: &[u8], pos: usize) -> (r: Result<((u128, u128), usize), Error>)
    ensures
        match (r, parse_tag(data@, pos as int)) {
            (Ok((t, end)), Ok((st, send))) => t == st && end as int == send,
            (Err(e), Err(se)) => e == se,
            _ => false,
        },
{
    match decode_variants(data, pos) {
        Err(e) => Err(e),
        Ok((n, p)) => {
            let wt: u128 = n % 8;
            let field_number: u128 = n / 8;
            Ok(((field_number, wt), p))
        },
    }
}

/// Reads one tagged field at `pos`: its tag, then its payload in the shape
/// the wire-type discriminant dictates.
pub fn decode_struct(data: &[u8], pos: usize) -> (r: Result<(WireStruct, usize), Error>)
    ensures
        match (r, parse_struct(data@, pos as int)) {
            (Ok((ws, end)), Ok((sws, send))) => ws@ == sws && end as int == send,
            (Err(e), Err(se)) => e == se,
            _ => false,
        },
{
    let ((field_num, wire_type), p1) = match decode_tag(data, pos) {
        Ok(x) => x,
        Err(e) => {
            return Err(e);
        },
    };
    if wire_type == 0 {
        match decode_variants(data, p1) {
            Err(e) => Err(e),
            Ok((v, p2)) => Ok(
                (WireStruct::new(field_num, WireData::Varint(WireDataVarint::new(v))), p2),
            ),
        }
    } else if wire_type == 1 {
        match decode_64bit(data, p1) {
            Err(e) => Err(e),
            Ok((b, p2)) => Ok(
                (WireStruct::new(field_num, WireData::Bit64(WireDataBit64::new(b))), p2),
            ),
        }
    } else if wire_type == 2 {
        match decode_length_delimited(data, p1) {
            Err(e) => Err(e),
            Ok((b, p2)) => Ok(
                (
                    WireStruct::new(
                        field_num,
                        WireData::LengthDelimited(WireDataLengthDelimited::new(b)),
                    ),
                    p2,
                ),
            ),
        }
    } else if wire_type == 5 {
        match decode_32bit(data, p1) {
            Err(e) => Err(e),
            Ok((b, p2)) => Ok(
                (WireStruct::new(field_num, WireData::Bit32(WireDataBit32::new(b))), p2),
            ),
        }
    } else {
        Err(Error::UnexpectedWireDataValue(wire_type))
    }
}

/// Decodes a whole buffer as one frame: tagged fields back to back, ending
/// exactly at the buffer end.  A buffer that ends mid-field is an error,
/// never a partial result.
pub fn decode_wire_binary(data: &[u8]) -> (r: Result<Vec<WireStruct>, Error>)
    ensures
        match (r, parse_frame(data@)) {
            (Ok(v), Ok(m)) => spec_views(v@) == m,
            (Err(e), Err(se)) => e == se,
            _ => false,
        },
{
    let mut v: Vec<WireStruct> = Vec::new();
    let mut pos: usize = 0;
    proof {
        assert(spec_views(v@) =~= Seq::<SpecWireStruct>::empty());
        if parse_frame_from(data@, 0) is Ok {
            assert(spec_views(v@) + parse_frame_from(data@, 0)->Ok_0 =~= parse_frame_from(
                data@,
                0,
            )->Ok_0);
        }
    }
    while pos < data.len()
        invariant
            pos <= data@.len(),
            match parse_frame_from(data@, pos as int) {
                Ok(rest) => parse_frame(data@) == Ok::<Seq<SpecWireStruct>, Error>(spec_views(v@) + rest),
                Err(e) => parse_frame(data@) == Err::<Seq<SpecWireStruct>, Error>(e),
            },
        decreases data@.len() - pos,
    {
        let ghost pre: Seq<WireStruct> = v@;
        match decode_struct(data, pos) {
            Err(e) => {
                return Err(e);
            },
            Ok((ws, p2)) => {
                proof {
                    lemma_parse_struct_progress(data@, pos as int);
                }
                let ghost m: SpecWireStruct = ws@;
                v.push(ws);
                proof {
                    assert(spec_views(v@) =~= spec_views(pre) + seq![m]);
                    match parse_frame_from(data@, p2 as int) {
                        Ok(rest2) => {
                            assert(parse_frame_from(data@, pos as int) == Ok::<
                                Seq<SpecWireStruct>,
                                Error,
                            >(seq![m] + rest2));
                            assert(spec_views(pre) + (seq![m] + rest2) =~= spec_views(v@)
                                + rest2);
                        },
                        Err(e) => {},
                    }
                }
                pos = p2;
            },
        }
    }
    proof {
        assert(parse_frame_from(data@, pos as int) == Ok::<Seq<SpecWireStruct>, Error>(Seq::empty()));
        assert(spec_views(v@) + Seq::<SpecWireStruct>::empty() =~= spec_views(v@));
    }
    Ok(v)
}

} // verus!
