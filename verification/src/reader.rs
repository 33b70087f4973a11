use vstd::prelude::*;

use crate::decode::{
    decode_32bit, decode_64bit, decode_length_delimited, decode_struct, decode_tag,
    decode_variants, parse_fixed, parse_length_delimited, parse_struct, parse_tag, parse_varint,
    varint_result_matches,
};
use crate::encode::spec_views;
use crate::error::Error;
use crate::wire::{eq_bytes, SpecWireData, SpecWireStruct, WireData};

verus! {

/// A field number, as `crate::wire` uses it.
pub type FieldNumber = u128;

/// One tagged field as this reader returns it, with the payload held
/// inline.
#[derive(Debug)]
pub struct WireStruct {
    pub field_number: FieldNumber,
    pub wire_type: WireType,
}

/// The four payload shapes, held inline.
#[derive(Debug)]
pub enum WireType {
    Varint(u128),
    Bit64([u8; 8]),
    LengthDelimited(Vec<u8>),
    Bit32([u8; 4]),
}

impl View for WireType {
    type V = SpecWireData;

    open spec fn view(&self) -> SpecWireData {
        match self {
            WireType::Varint(v) => SpecWireData::Varint(*v),
            WireType::Bit64(b) => SpecWireData::Bit64(b@),
            WireType::LengthDelimited(l) => SpecWireData::LengthDelimited(l@),
            WireType::Bit32(b) => SpecWireData::Bit32(b@),
        }
    }
}

impl View for WireStruct {
    type V = SpecWireStruct;

    open spec fn view(&self) -> SpecWireStruct {
        SpecWireStruct { field_number: self.field_number, data: self.wire_type@ }
    }
}

impl PartialEq for WireType {
    fn eq(&self, other: &Self) -> (r: bool)
    {
        broadcast use vstd::array::group_array_axioms;

        match (self, other) {
            (WireType::Varint(a), WireType::Varint(b)) => *a == *b,
            (WireType::Bit64(a), WireType::Bit64(b)) => {
                let r: bool = a[0] == b[0] && a[1] == b[1] && a[2] == b[2] && a[3] == b[3]
                    && a[4] == b[4] && a[5] == b[5] && a[6] == b[6] && a[7] == b[7];
                proof {
                    if r {
                        assert forall|i: int| 0 <= i < 8 implies a@[i] == b@[i] by {
                            if i == 0 {
                            } else if i == 1 {
                            } else if i == 2 {
                            } else if i == 3 {
                            } else if i == 4 {
                            } else if i == 5 {
                            } else if i == 6 {
                            } else {
                                assert(i == 7);
                            }
                        }
                        assert(a@ =~= b@);
                    } else {
                        if a@ == b@ {
                            assert(a@[0] == b@[0]);
                            assert(a@[1] == b@[1]);
                            assert(a@[2] == b@[2]);
                            assert(a@[3] == b@[3]);
                            assert(a@[4] == b@[4]);
                            assert(a@[5] == b@[5]);
                            assert(a@[6] == b@[6]);
                            assert(a@[7] == b@[7]);
                        }
                    }
                }
                r
            },
            (WireType::LengthDelimited(a), WireType::LengthDelimited(b)) => eq_bytes(a, b),
            (WireType::Bit32(a), WireType::Bit32(b)) => {
                let r: bool = a[0] == b[0] && a[1] == b[1] && a[2] == b[2] && a[3] == b[3];
                proof {
                    if r {
                        assert forall|i: int| 0 <= i < 4 implies a@[i] == b@[i] by {
                            if i == 0 {
                            } else if i == 1 {
                            } else if i == 2 {
                            } else {
                                assert(i == 3);
                            }
                        }
                        assert(a@ =~= b@);
                    } else {
                        if a@ == b@ {
                            assert(a@[0] == b@[0]);
                            assert(a@[1] == b@[1]);
                            assert(a@[2] == b@[2]);
                            assert(a@[3] == b@[3]);
                        }
                    }
                }
                r
            },
            _ => false,
        }
    }
}

impl Eq for WireType {

}

impl vstd::std_specs::cmp::PartialEqSpecImpl for WireType {
    open spec fn obeys_eq_spec() -> bool {
        true
    }

    open spec fn eq_spec(&self, other: &Self) -> bool {
        self@ == other@
    }
}

impl PartialEq for WireStruct {
    fn eq(&self, other: &Self) -> (r: bool)
    {
        self.field_number == other.field_number && self.wire_type == other.wire_type
    }
}

impl Eq for WireStruct {

}

impl vstd::std_specs::cmp::PartialEqSpecImpl for WireStruct {
    open spec fn obeys_eq_spec() -> bool {
        true
    }

    open spec fn eq_spec(&self, other: &Self) -> bool {
        self@ == other@
    }
}

/// Reads one varint starting at `pos`.
pub fn read_variants(data: &[u8], pos: usize) -> (r: Result<(u128, usize), Error>)
    ensures
        varint_result_matches(r, parse_varint(data@, pos as int)),
{
    decode_variants(data, pos)
}

/// Reads a length-delimited payload at `pos`: a varint byte count, then an
/// owned copy of exactly that many bytes.
pub fn read_length_delimited(data: &[u8], pos: usize) -> (r: Result<(Vec<u8>, usize), Error>)
    ensures
        match (r, parse_length_delimited(data@, pos as int)) {
            (Ok((v, end)), Ok((sv, send))) => v@ == sv && end as int == send,
            (Err(e), Err(se)) => e == se,
            _ => false,
        },
{
    decode_length_delimited(data, pos)
}

/// Reads the four bytes of a 32-bit fixed payload at `pos`.
pub fn read_32bit(data: &[u8], pos: usize) -> (r: Result<([u8; 4], usize), Error>)
    ensures
        match (r, parse_fixed(data@, pos as int, 4)) {
            (Ok((arr, end)), Ok((sv, send))) => arr@ == sv && end as int == send,
            (Err(e), Err(se)) => e == se,
            _ => false,
        },
{
    decode_32bit(data, pos)
}

/// Reads the eight bytes of a 64-bit fixed payload at `pos`.
pub fn read_64bit(data: &[u8], pos: usize) -> (r: Result<([u8; 8], usize), Error>)
    ensures
        match (r, parse_fixed(data@, pos as int, 8)) {
            (Ok((arr, end)), Ok((sv, send))) => arr@ == sv && end as int == send,
            (Err(e), Err(se)) => e == se,
            _ => false,
        },
{
    decode_64bit(data, pos)
}

/// A packed run read by `read_repeat`: a declared byte count, then varints
/// until exactly that many bytes are consumed.  An element running past the
/// declared boundary is an error.
pub open spec fn parse_packed_run(s: Seq<u8>, start: int, pos: int, size: u128) -> Result<
    Seq<u128>,
    Error,
>
    decreases s.len() - pos,
{
    if pos - start == size {
        Ok(Seq::empty())
    } else if pos - start > size {
        Err(Error::UnexpectedRepeatSize((pos - start) as u128, size))
    } else {
        match parse_varint(s, pos) {
            Err(e) => Err(e),
            Ok((v, end)) => if pos < end <= s.len() {
                match parse_packed_run(s, start, end, size) {
                    Err(e) => Err(e),
                    Ok(rest) => Ok(seq![v] + rest),
                }
            } else {
                Err(Error::UnexpectedFormat)
            },
        }
    }
}

/// The whole of what `read_repeat` reads at `pos`: the declared byte count
/// as a varint, then the packed run it delimits.
pub open spec fn parse_repeat(s: Seq<u8>, pos: int) -> Result<(Seq<u128>, int), Error> {
    match parse_varint(s, pos) {
        Err(e) => Err(e),
        Ok((size, p1)) => match parse_packed_run(s, p1, p1, size) {
            Err(e) => Err(e),
            Ok(vals) => Ok((vals, p1 + size as int)),
        },
    }
}

/// Reads a packed repeated run at `pos`: a declared byte count, then
/// varints until the declared boundary is reached exactly.
pub fn read_repeat(data: &[u8], pos: usize) -> (r: Result<(Vec<u128>, usize), Error>)
    ensures
        match (r, parse_repeat(data@, pos as int)) {
            (Ok((v, end)), Ok((sv, send))) => v@ == sv && end as int == send,
            (Err(e), Err(se)) => e == se,
            _ => false,
        },
{
    let (payload_size, start) = match decode_variants(data, pos) {
        Ok(x) => x,
        Err(e) => {
            return Err(e);
        },
    };
    proof {
        crate::decode::lemma_parse_varint_progress(data@, pos as int);
    }
    let len: usize = data.len();
    let mut v: Vec<u128> = Vec::new();
    let mut cur: usize = start;
    proof {
        if parse_packed_run(data@, start as int, start as int, payload_size) is Ok {
            assert(v@ + parse_packed_run(data@, start as int, start as int, payload_size)->Ok_0
                =~= parse_packed_run(data@, start as int, start as int, payload_size)->Ok_0);
        }
    }
    loop
        invariant
            start <= cur,
            cur <= data@.len(),
            len == data@.len(),
            parse_varint(data@, pos as int) == Ok::<(u128, int), Error>(
                (payload_size, start as int),
            ),
            match parse_packed_run(data@, start as int, cur as int, payload_size) {
                Ok(rest) => parse_packed_run(data@, start as int, start as int, payload_size)
                    == Ok::<Seq<u128>, Error>(v@ + rest),
                Err(e) => parse_packed_run(data@, start as int, start as int, payload_size)
                    == Err::<Seq<u128>, Error>(e),
            },
        decreases data@.len() - cur,
    {
        let red_size: usize = cur - start;
        if payload_size == red_size as u128 {
            proof {
                assert(parse_packed_run(data@, start as int, cur as int, payload_size)
                    == Ok::<Seq<u128>, Error>(Seq::empty()));
                assert(v@ + Seq::<u128>::empty() =~= v@);
            }
            return Ok((v, cur));
        }
        if payload_size < red_size as u128 {
            return Err(Error::UnexpectedRepeatSize(red_size as u128, payload_size));
        }
        let ghost pre: Seq<u128> = v@;
        match decode_variants(data, cur) {
            Err(e) => {
                return Err(e);
            },
            Ok((value, p2)) => {
                proof {
                    crate::decode::lemma_parse_varint_progress(data@, cur as int);
                }
                v.push(value);
                proof {
                    match parse_packed_run(data@, start as int, p2 as int, payload_size) {
                        Ok(rest2) => {
                            assert(parse_packed_run(
                                data@,
                                start as int,
                                cur as int,
                                payload_size,
                            ) == Ok::<Seq<u128>, Error>(seq![value] + rest2));
                            assert(pre + (seq![value] + rest2) =~= v@ + rest2);
                        },
                        Err(e) => {},
                    }
                }
                cur = p2;
            },
        }
    }
}

/// Reads a tag at `pos`: one varint split into the field number and the
/// wire-type discriminant.
pub fn read_tag(data: &[u8], pos: usize) -> (r: Result<((u128, u128), usize), Error>)
    ensures
        match (r, parse_tag(data@, pos as int)) {
            (Ok((t, end)), Ok((st, send))) => t == st && end as int == send,
            (Err(e), Err(se)) => e == se,
            _ => false,
        },
{
    decode_tag(data, pos)
}

/// Reads one tagged field at `pos`, holding its payload inline.
pub fn read_struct(data: &[u8], pos: usize) -> (r: Result<(WireStruct, usize), Error>)
    ensures
        match (r, parse_struct(data@, pos as int)) {
            (Ok((ws, end)), Ok((sws, send))) => ws@ == sws && end as int == send,
            (Err(e), Err(se)) => e == se,
            _ => false,
        },
{
    match decode_struct(data, pos) {
        Err(e) => Err(e),
        Ok((ws, end)) => {
            let wt: WireType = match ws.wire_type {
                WireData::Varint(v) => WireType::Varint(v.value),
                WireData::Bit64(b) => WireType::Bit64(b.value),
                WireData::LengthDelimited(l) => WireType::LengthDelimited(l.value),
                WireData::Bit32(b) => WireType::Bit32(b.value),
            };
            Ok((WireStruct { field_number: ws.field_number, wire_type: wt }, end))
        },
    }
}

/// Reads a whole buffer as one frame of tagged fields, ending exactly at
/// the buffer end.
pub fn read_wire_binary(data: &[u8]) -> (r: Result<Vec<WireStruct>, Error>)
    ensures
        match (r, crate::decode::parse_frame(data@)) {
            (Ok(v), Ok(m)) => v@.map_values(|w: WireStruct| w@) == m,
            (Err(e), Err(se)) => e == se,
            _ => false,
        },
{
    let ghost frame = crate::decode::parse_frame(data@);
    let decoded: Vec<crate::wire::WireStruct> = match crate::decode::decode_wire_binary(data) {
        Err(e) => {
            return Err(e);
        },
        Ok(v) => v,
    };
    let mut out: Vec<WireStruct> = Vec::new();
    let mut i: usize = 0;
    while i < decoded.len()
        invariant
            i <= decoded@.len(),
            out@.len() == i,
            spec_views(decoded@) == frame->Ok_0,
            frame is Ok,
            forall|j: int| 0 <= j < i ==> (#[trigger] out@[j])@ == decoded@[j]@,
        decreases decoded@.len() - i,
    {
        let ws: &crate::wire::WireStruct = &decoded[i];
        let wt: WireType = match &ws.wire_type {
            WireData::Varint(v) => WireType::Varint(v.value),
            WireData::Bit64(b) => WireType::Bit64(b.value),
            WireData::LengthDelimited(l) => WireType::LengthDelimited(
                vstd::slice::slice_to_vec(l.value.as_slice()),
            ),
            WireData::Bit32(b) => WireType::Bit32(b.value),
        };
        out.push(WireStruct { field_number: ws.field_number, wire_type: wt });
        i = i + 1;
    }
    proof {
        assert(out@.map_values(|w: WireStruct| w@) =~= spec_views(decoded@));
    }
    Ok(out)
}

} // verus!
