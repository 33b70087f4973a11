use vstd::prelude::*;

use crate::decode::{
    parse_frame, parse_frame_from, parse_length_delimited, parse_struct, parse_tag, parse_varint,
    parse_varints_all, varint_end, varint_nat,
};
use crate::encode::{
    frame_bytes, length_delimited_bytes, repeat_bytes, tag_value, varint_bytes,
    wire_payload_bytes, wire_struct_bytes, MAX_FIELD_NUMBER,
};
use crate::encode::lemma_varint_bytes_len;
use crate::error::Error;
use crate::wire::{wire_data_is_empty, wire_data_wf, wire_type_num, SpecWireData, SpecWireStruct};

verus! {

/// The bytes of `b` sit in `s` at `pos`, byte for byte.
proof fn lemma_bytes_at(s: Seq<u8>, pos: int, b: Seq<u8>)
    requires
        0 <= pos,
        pos + b.len() <= s.len(),
        s.subrange(pos, pos + b.len() as int) == b,
    ensures
        forall|j: int| 0 <= j < b.len() ==> s[pos + j] == b[j],
{
    assert forall|j: int| 0 <= j < b.len() implies s[pos + j] == b[j] by {
        assert(s.subrange(pos, pos + b.len() as int)[j] == s[pos + j]);
    }
}

/// A stretch of `s` equal to a concatenation splits into its two parts.
proof fn lemma_split_at(s: Seq<u8>, pos: int, a: Seq<u8>, b: Seq<u8>)
    requires
        0 <= pos,
        pos + a.len() + b.len() <= s.len(),
        s.subrange(pos, pos + a.len() + b.len()) == a + b,
    ensures
        s.subrange(pos, pos + a.len() as int) == a,
        s.subrange(pos + a.len() as int, pos + a.len() + b.len()) == b,
{
    lemma_bytes_at(s, pos, a + b);
    assert forall|j: int| 0 <= j < a.len() implies s.subrange(pos, pos + a.len() as int)[j]
        == a[j] by {
        assert(s.subrange(pos, pos + a.len() as int)[j] == s[pos + j]);
        assert(s[pos + j] == (a + b)[j]);
    }
    assert(s.subrange(pos, pos + a.len() as int) =~= a);
    assert forall|j: int| 0 <= j < b.len() implies s.subrange(
        pos + a.len() as int,
        pos + a.len() + b.len(),
    )[j] == b[j] by {
        assert(s.subrange(pos + a.len() as int, pos + a.len() + b.len())[j] == s[pos + a.len()
            + j]);
        assert(s[pos + (a.len() + j)] == (a + b)[a.len() + j]);
        assert((a + b)[a.len() + j] == b[j]);
    }
    assert(s.subrange(pos + a.len() as int, pos + a.len() + b.len()) =~= b);
}

/// A varint encoding found anywhere in a buffer parses back to the value it
/// encodes, consuming exactly its own bytes.
pub proof fn lemma_parse_varint_encoding(s: Seq<u8>, pos: int, n: u128)
    requires
        n >= 1,
        0 <= pos,
        pos + varint_bytes(n).len() <= s.len(),
        s.subrange(pos, pos + varint_bytes(n).len() as int) == varint_bytes(n),
    ensures
        parse_varint(s, pos) == Ok::<(u128, int), Error>(
            (n, pos + varint_bytes(n).len() as int),
        ),
    decreases n,
{
    let bs = varint_bytes(n);
    let len = bs.len() as int;
    lemma_bytes_at(s, pos, bs);
    assert(s[pos] == bs[0]);
    if n < 128 {
        assert(bs =~= seq![(n % 128) as u8]);
        assert(s[pos] == n as u8);
        assert(s[pos] < 128);
        assert(varint_end(s, pos) == Some(pos + 1));
        assert(varint_nat(s, pos + 1, pos + 1) == 0);
        assert(varint_nat(s, pos, pos + 1) == (s[pos] % 128) as nat);
        assert(varint_nat(s, pos, pos + 1) == n as nat);
    } else {
        let rest = varint_bytes(n / 128);
        assert(bs == seq![((n % 128) + 128) as u8] + rest);
        assert(bs[0] == ((n % 128) + 128) as u8);
        assert(s[pos] >= 128);
        assert(rest.len() == len - 1);
        assert(s.subrange(pos + 1, pos + len) =~= rest) by {
            assert forall|j: int| 0 <= j < rest.len() implies s.subrange(pos + 1, pos + len)[j]
                == rest[j] by {
                assert(s.subrange(pos + 1, pos + len)[j] == s[pos + 1 + j]);
                assert(bs[j + 1] == rest[j]);
                assert(s[pos + 1 + j] == bs[j + 1]);
            }
        }
        lemma_parse_varint_encoding(s, pos + 1, n / 128);
        assert(varint_end(s, pos + 1) == Some(pos + len));
        assert(varint_end(s, pos) == Some(pos + len));
        assert(varint_nat(s, pos + 1, pos + len) == (n / 128) as nat);
        assert(varint_nat(s, pos, pos + len) == (s[pos] % 128) as nat + 128 * varint_nat(
            s,
            pos + 1,
            pos + len,
        ));
        assert(s[pos] % 128 == (n % 128) as u8);
        assert(varint_nat(s, pos, pos + len) == n as nat);
        lemma_varint_bytes_len(n);
    }
}

/// Law: every positive value round-trips through its varint encoding, and
/// the whole encoding is consumed.
pub proof fn lemma_varint_roundtrip(n: u128)
    requires
        n >= 1,
    ensures
        parse_varint(varint_bytes(n), 0) == Ok::<(u128, int), Error>(
            (n, varint_bytes(n).len() as int),
        ),
{
    let bs = varint_bytes(n);
    assert(bs.subrange(0, bs.len() as int) =~= bs);
    lemma_parse_varint_encoding(bs, 0, n);
}

/// Law: zero encodes to no bytes, yet decodes from the single byte `0x00`.
pub proof fn lemma_varint_zero()
    ensures
        varint_bytes(0) == Seq::<u8>::empty(),
        parse_varint(seq![0u8], 0) == Ok::<(u128, int), Error>((0, 1)),
{
    let s = seq![0u8];
    assert(s[0] < 128);
    assert(varint_end(s, 0) == Some(1int));
    assert(varint_nat(s, 1, 1) == 0);
    assert(varint_nat(s, 0, 1) == 0);
}

/// Law: packing a field number and a wire-type discriminant into a tag and
/// decoding the tag gives both back.  The one pair this cannot hold of is
/// field number zero with discriminant zero, whose tag value is zero and
/// encodes to no bytes at all.
pub proof fn lemma_tag_roundtrip(field_number: u128, wire_type: u128)
    requires
        field_number <= MAX_FIELD_NUMBER,
        wire_type == 0 || wire_type == 1 || wire_type == 2 || wire_type == 5,
        !(field_number == 0 && wire_type == 0),
    ensures
        parse_tag(varint_bytes(tag_value(field_number, wire_type)), 0) == Ok::<
            ((u128, u128), int),
            Error,
        >(((field_number, wire_type), varint_bytes(tag_value(field_number, wire_type)).len() as int)),
{
    let tag = tag_value(field_number, wire_type);
    assert(tag as int == field_number * 8 + wire_type);
    assert(tag >= 1);
    lemma_varint_roundtrip(tag);
    assert(tag / 8 == field_number) by (nonlinear_arith)
        requires
            tag as int == field_number * 8 + wire_type,
            wire_type < 8,
    ;
    assert(tag % 8 == wire_type) by (nonlinear_arith)
        requires
            tag as int == field_number * 8 + wire_type,
            wire_type < 8,
    ;
}

/// A field's encoding found anywhere in a buffer parses back to the field
/// itself, consuming exactly its own bytes.  Fields holding their shape's
/// zero value are excluded: the codec never writes them.
pub proof fn lemma_parse_struct_encoding(s: Seq<u8>, pos: int, ws: SpecWireStruct)
    requires
        1 <= ws.field_number <= MAX_FIELD_NUMBER,
        wire_data_wf(ws.data),
        !wire_data_is_empty(ws.data),
        0 <= pos,
        pos + wire_struct_bytes(ws).len() <= s.len(),
        s.subrange(pos, pos + wire_struct_bytes(ws).len() as int) == wire_struct_bytes(ws),
    ensures
        parse_struct(s, pos) == Ok::<(SpecWireStruct, int), Error>(
            (ws, pos + wire_struct_bytes(ws).len() as int),
        ),
{
    let wt = wire_type_num(ws.data);
    let tag = tag_value(ws.field_number, wt);
    let tag_bs = varint_bytes(tag);
    let payload = wire_payload_bytes(ws.data);
    let total = pos + wire_struct_bytes(ws).len() as int;
    assert(wt <= 7);
    assert(tag as int == ws.field_number * 8 + wt);
    assert(tag >= 8);
    lemma_split_at(s, pos, tag_bs, payload);
    lemma_parse_varint_encoding(s, pos, tag);
    let p1 = pos + tag_bs.len() as int;
    assert(tag / 8 == ws.field_number) by (nonlinear_arith)
        requires
            tag as int == ws.field_number * 8 + wt,
            wt < 8,
    ;
    assert(tag % 8 == wt) by (nonlinear_arith)
        requires
            tag as int == ws.field_number * 8 + wt,
            wt < 8,
    ;
    assert(parse_tag(s, pos) == Ok::<((u128, u128), int), Error>(
        ((ws.field_number, wt), p1),
    ));
    match ws.data {
        SpecWireData::Varint(v) => {
            assert(v >= 1);
            lemma_parse_varint_encoding(s, p1, v);
        },
        SpecWireData::Bit64(b) => {
            assert(payload == b);
            assert(p1 + 8 <= s.len());
            assert(s.subrange(p1, p1 + 8) == b);
        },
        SpecWireData::LengthDelimited(b) => {
            assert(payload == length_delimited_bytes(b));
            let len_bs = varint_bytes(b.len() as u128);
            lemma_split_at(s, p1, len_bs, b);
            assert(b.len() >= 1);
            lemma_parse_varint_encoding(s, p1, b.len() as u128);
            let p2 = p1 + len_bs.len() as int;
            assert((b.len() as u128) as int == b.len());
            assert((b.len() as u128) as int <= s.len() - p2);
            assert(s.subrange(p2, p2 + b.len() as int) == b);
        },
        SpecWireData::Bit32(b) => {
            assert(payload == b);
            assert(p1 + 4 <= s.len());
            assert(s.subrange(p1, p1 + 4) == b);
        },
    }
}

/// The fields of a sequence that actually reach the wire: those whose value
/// is not their shape's zero value, in order.
pub open spec fn retained(l: Seq<SpecWireStruct>) -> Seq<SpecWireStruct>
    decreases l.len(),
{
    if l.len() == 0 {
        Seq::empty()
    } else if wire_data_is_empty(l[0].data) {
        retained(l.skip(1))
    } else {
        seq![l[0]] + retained(l.skip(1))
    }
}

/// Every field of the sequence is well formed for encoding: a usable field
/// number and a payload of its shape's width.
pub open spec fn frame_wf(l: Seq<SpecWireStruct>) -> bool {
    forall|i: int|
        0 <= i < l.len() ==> 1 <= (#[trigger] l[i]).field_number <= MAX_FIELD_NUMBER
            && wire_data_wf(l[i].data)
}

/// A frame encoding that fills a buffer from `pos` to its end parses back
/// to exactly the non-empty fields.
proof fn lemma_frame_bytes_parse(s: Seq<u8>, pos: int, l: Seq<SpecWireStruct>)
    requires
        frame_wf(l),
        0 <= pos,
        pos + frame_bytes(l).len() == s.len(),
        s.subrange(pos, s.len() as int) == frame_bytes(l),
    ensures
        parse_frame_from(s, pos) == Ok::<Seq<SpecWireStruct>, Error>(retained(l)),
    decreases l.len(),
{
    if l.len() == 0 {
        assert(pos == s.len());
    } else {
        assert(frame_wf(l.skip(1))) by {
            assert(forall|i: int|
                0 <= i < l.skip(1).len() ==> l.skip(1)[i] == l[i + 1]);
        }
        if wire_data_is_empty(l[0].data) {
            assert(frame_bytes(l) =~= frame_bytes(l.skip(1)));
            lemma_frame_bytes_parse(s, pos, l.skip(1));
        } else {
            let wsb = wire_struct_bytes(l[0]);
            let rest = frame_bytes(l.skip(1));
            assert(frame_bytes(l) == wsb + rest);
            lemma_split_at(s, pos, wsb, rest);
            assert(s.subrange(pos, pos + wsb.len() as int) == wsb);
            lemma_parse_struct_encoding(s, pos, l[0]);
            let p2 = pos + wsb.len() as int;
            assert(varint_bytes(tag_value(l[0].field_number, wire_type_num(l[0].data))).len()
                >= 1);
            assert(pos < p2 <= s.len());
            assert(s.subrange(p2, s.len() as int) == rest);
            lemma_frame_bytes_parse(s, p2, l.skip(1));
            assert(parse_frame_from(s, pos) == Ok::<Seq<SpecWireStruct>, Error>(
                seq![l[0]] + retained(l.skip(1)),
            ));
        }
    }
}

/// Law: a frame of well-formed fields round-trips — decoding the encoded
/// bytes gives back exactly the fields that were written, which are the
/// fields whose values are not their shape's zero value, in their original
/// order.  Fields holding the zero value are elided from the bytes, so they
/// are absent from the decoded frame: value round-trips, presence does not.
pub proof fn lemma_frame_roundtrip(l: Seq<SpecWireStruct>)
    requires
        frame_wf(l),
    ensures
        parse_frame(frame_bytes(l)) == Ok::<Seq<SpecWireStruct>, Error>(retained(l)),
{
    let s = frame_bytes(l);
    assert(s.subrange(0, s.len() as int) =~= s);
    lemma_frame_bytes_parse(s, 0, l);
}

/// Law: a packed run of positive values round-trips — back-to-back varint
/// encodings parse back to exactly the values written, in order.
pub proof fn lemma_repeat_roundtrip(vals: Seq<u128>)
    requires
        forall|i: int| 0 <= i < vals.len() ==> (#[trigger] vals[i]) >= 1,
    ensures
        parse_varints_all(repeat_bytes(vals), 0) == Ok::<Seq<u128>, Error>(vals),
{
    let s = repeat_bytes(vals);
    assert(s.subrange(0, s.len() as int) =~= s);
    lemma_repeat_bytes_parse(s, 0, vals);
}

/// A packed encoding that fills a buffer from `pos` to its end parses back
/// to exactly the values it encodes.
proof fn lemma_repeat_bytes_parse(s: Seq<u8>, pos: int, vals: Seq<u128>)
    requires
        forall|i: int| 0 <= i < vals.len() ==> (#[trigger] vals[i]) >= 1,
        0 <= pos,
        pos + repeat_bytes(vals).len() == s.len(),
        s.subrange(pos, s.len() as int) == repeat_bytes(vals),
    ensures
        parse_varints_all(s, pos) == Ok::<Seq<u128>, Error>(vals),
    decreases vals.len(),
{
    if vals.len() == 0 {
        assert(pos == s.len());
        assert(vals =~= Seq::<u128>::empty());
    } else {
        let head = varint_bytes(vals[0]);
        let rest = repeat_bytes(vals.skip(1));
        assert(repeat_bytes(vals) == head + rest);
        lemma_split_at(s, pos, head, rest);
        lemma_parse_varint_encoding(s, pos, vals[0]);
        let p2 = pos + head.len() as int;
        assert(head.len() >= 1);
        assert(forall|i: int|
            0 <= i < vals.skip(1).len() ==> (#[trigger] vals.skip(1)[i]) == vals[i + 1]);
        lemma_repeat_bytes_parse(s, p2, vals.skip(1));
        assert(seq![vals[0]] + vals.skip(1) =~= vals);
    }
}

/// Law: truncation of a declared-length payload is always detected.  A
/// buffer that carries a frame and then a length-delimited field with its
/// last `t` payload bytes missing never decodes to a short result: the
/// decoder reports the truncation.
pub proof fn lemma_truncation_detected(l: Seq<SpecWireStruct>, ws: SpecWireStruct, t: int)
    requires
        frame_wf(l),
        1 <= ws.field_number <= MAX_FIELD_NUMBER,
        ws.data is LengthDelimited,
        wire_data_wf(ws.data),
        1 <= t <= ws.data->LengthDelimited_0.len(),
    ensures
        parse_frame(
            frame_bytes(l) + wire_struct_bytes(ws).take(wire_struct_bytes(ws).len() - t),
        ) is Err,
{
    let s = frame_bytes(l) + wire_struct_bytes(ws).take(wire_struct_bytes(ws).len() - t);
    assert(s.subrange(0, s.len() as int) =~= s);
    lemma_truncated_frame_at(s, 0, l, ws, t);
}

/// The generalized form of truncation detection, at any start position.
proof fn lemma_truncated_frame_at(
    s: Seq<u8>,
    pos: int,
    l: Seq<SpecWireStruct>,
    ws: SpecWireStruct,
    t: int,
)
    requires
        frame_wf(l),
        1 <= ws.field_number <= MAX_FIELD_NUMBER,
        ws.data is LengthDelimited,
        wire_data_wf(ws.data),
        1 <= t <= ws.data->LengthDelimited_0.len(),
        0 <= pos,
        pos + frame_bytes(l).len() + wire_struct_bytes(ws).len() - t == s.len(),
        s.subrange(pos, s.len() as int) == frame_bytes(l) + wire_struct_bytes(ws).take(
            wire_struct_bytes(ws).len() - t,
        ),
    ensures
        parse_frame_from(s, pos) is Err,
    decreases l.len(),
{
    let payload = ws.data->LengthDelimited_0;
    let wt = wire_type_num(ws.data);
    let tag = tag_value(ws.field_number, wt);
    let tag_bs = varint_bytes(tag);
    let len_bs = varint_bytes(payload.len() as u128);
    let cut = wire_struct_bytes(ws).len() - t;
    if l.len() == 0 {
        assert(frame_bytes(l) == Seq::<u8>::empty());
        assert(s.subrange(pos, s.len() as int) =~= wire_struct_bytes(ws).take(cut as int));
        assert(wire_struct_bytes(ws) == tag_bs + (len_bs + payload));
        assert(cut == tag_bs.len() + len_bs.len() + payload.len() - t);
        assert(tag as int == ws.field_number * 8 + wt);
        assert(tag >= 8);
        assert(payload.len() >= 1);
        // the tag and the declared length are intact; only payload bytes are cut
        assert forall|j: int| 0 <= j < cut implies s[pos + j] == wire_struct_bytes(ws)[j] by {
            assert(s.subrange(pos, s.len() as int)[j] == s[pos + j]);
            assert(wire_struct_bytes(ws).take(cut as int)[j] == wire_struct_bytes(ws)[j]);
        }
        assert(s.subrange(pos, pos + tag_bs.len() as int) =~= tag_bs) by {
            assert forall|j: int| 0 <= j < tag_bs.len() implies s.subrange(
                pos,
                pos + tag_bs.len() as int,
            )[j] == tag_bs[j] by {
                assert(s.subrange(pos, pos + tag_bs.len() as int)[j] == s[pos + j]);
                assert(wire_struct_bytes(ws)[j] == (tag_bs + (len_bs + payload))[j]);
            }
        }
        lemma_parse_varint_encoding(s, pos, tag);
        let p1 = pos + tag_bs.len() as int;
        assert(tag / 8 == ws.field_number) by (nonlinear_arith)
            requires
                tag as int == ws.field_number * 8 + wt,
                wt < 8,
        ;
        assert(tag % 8 == wt) by (nonlinear_arith)
            requires
                tag as int == ws.field_number * 8 + wt,
                wt < 8,
        ;
        assert(s.subrange(p1, p1 + len_bs.len() as int) =~= len_bs) by {
            assert forall|j: int| 0 <= j < len_bs.len() implies s.subrange(
                p1,
                p1 + len_bs.len() as int,
            )[j] == len_bs[j] by {
                assert(s.subrange(p1, p1 + len_bs.len() as int)[j] == s[p1 + j]);
                assert(wire_struct_bytes(ws)[tag_bs.len() + j] == (tag_bs + (len_bs
                    + payload))[tag_bs.len() + j]);
                assert(s[p1 + j] == wire_struct_bytes(ws)[tag_bs.len() + j]);
            }
        }
        lemma_parse_varint_encoding(s, p1, payload.len() as u128);
        let p2 = p1 + len_bs.len() as int;
        assert(s.len() - p2 == payload.len() - t);
        assert((payload.len() as u128) as int == payload.len());
        assert(!((payload.len() as u128) as int <= s.len() - p2));
        assert(parse_length_delimited(s, p1) is Err);
        assert(parse_struct(s, pos) is Err);
        assert(pos < s.len());
    } else {
        assert(frame_wf(l.skip(1))) by {
            assert(forall|i: int|
                0 <= i < l.skip(1).len() ==> l.skip(1)[i] == l[i + 1]);
        }
        let tail = frame_bytes(l.skip(1)) + wire_struct_bytes(ws).take(cut as int);
        if wire_data_is_empty(l[0].data) {
            assert(frame_bytes(l) =~= frame_bytes(l.skip(1)));
            assert(s.subrange(pos, s.len() as int) =~= frame_bytes(l.skip(1))
                + wire_struct_bytes(ws).take(cut as int));
            lemma_truncated_frame_at(s, pos, l.skip(1), ws, t);
        } else {
            let wsb = wire_struct_bytes(l[0]);
            assert(frame_bytes(l) == wsb + frame_bytes(l.skip(1)));
            assert(s.subrange(pos, s.len() as int) =~= wsb + tail) by {
                assert((wsb + frame_bytes(l.skip(1))) + wire_struct_bytes(ws).take(cut as int)
                    =~= wsb + tail);
            }
            lemma_split_at(s, pos, wsb, tail);
            lemma_parse_struct_encoding(s, pos, l[0]);
            let p2 = pos + wsb.len() as int;
            assert(varint_bytes(tag_value(l[0].field_number, wire_type_num(l[0].data))).len()
                >= 1);
            assert(pos < p2 <= s.len());
            lemma_truncated_frame_at(s, p2, l.skip(1), ws, t);
        }
    }
}

} // verus!
