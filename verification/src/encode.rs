use vstd::prelude::*;

use crate::error::Error;
use crate::wire::{
    wire_data_is_empty, wire_type_num, SpecWireData, SpecWireStruct, WireData, WireStruct,
};

verus! {

/// The largest field number whose tag still fits in 128 bits: field numbers
/// are shifted left by three to make room for the wire-type discriminant.
pub const MAX_FIELD_NUMBER: u128 = 0x1fffffffffffffffffffffffffffffff;

/// The base-128 encoding of `n`, least-significant group first, with the
/// continuation bit set on every byte but the last.  Zero encodes to no
/// bytes at all.
pub open spec fn varint_bytes(n: u128) -> Seq<u8>
    decreases n,
{
    if n == 0 {
        Seq::empty()
    } else if n / 128 == 0 {
        seq![(n % 128) as u8]
    } else {
        seq![((n % 128) + 128) as u8] + varint_bytes(n / 128)
    }
}

/// The concatenation of the varint encodings of a sequence of values, as a
/// packed repeated payload holds them.
pub open spec fn repeat_bytes(vals: Seq<u128>) -> Seq<u8>
    decreases vals.len(),
{
    if vals.len() == 0 {
        Seq::empty()
    } else {
        varint_bytes(vals[0]) + repeat_bytes(vals.skip(1))
    }
}

/// Appending one more value appends its varint encoding to the packed run.
pub proof fn lemma_repeat_bytes_snoc(vals: Seq<u128>, u: u128)
    ensures
        repeat_bytes(vals.push(u)) == repeat_bytes(vals) + varint_bytes(u),
    decreases vals.len(),
{
    if vals.len() == 0 {
        assert(vals.push(u) =~= seq![u]);
        assert(repeat_bytes(seq![u]) == varint_bytes(u) + repeat_bytes(Seq::<u128>::empty()))
            by {
            assert(seq![u].skip(1) =~= Seq::<u128>::empty());
        }
        assert(repeat_bytes(vals.push(u)) =~= repeat_bytes(vals) + varint_bytes(u));
    } else {
        assert(vals.push(u).skip(1) =~= vals.skip(1).push(u));
        lemma_repeat_bytes_snoc(vals.skip(1), u);
        assert(repeat_bytes(vals.push(u)) == varint_bytes(vals[0]) + (repeat_bytes(vals.skip(1))
            + varint_bytes(u)));
        assert(varint_bytes(vals[0]) + (repeat_bytes(vals.skip(1)) + varint_bytes(u)) =~= (
        varint_bytes(vals[0]) + repeat_bytes(vals.skip(1))) + varint_bytes(u));
    }
}

/// A length-delimited payload on the wire: the byte count as a varint,
/// then the bytes themselves.
pub open spec fn length_delimited_bytes(payload: Seq<u8>) -> Seq<u8> {
    varint_bytes(payload.len() as u128) + payload
}

/// The tag packing a field number and a wire-type discriminant into one
/// varint value.
pub open spec fn tag_value(field_number: u128, field_type: u128) -> u128
    recommends
        field_number <= MAX_FIELD_NUMBER,
        field_type <= 7,
{
    (field_number * 8 + field_type) as u128
}

/// The bytes of a wire value's payload, without its tag.
pub open spec fn wire_payload_bytes(d: SpecWireData) -> Seq<u8> {
    match d {
        SpecWireData::Varint(v) => varint_bytes(v),
        SpecWireData::Bit64(s) => s,
        SpecWireData::LengthDelimited(s) => length_delimited_bytes(s),
        SpecWireData::Bit32(s) => s,
    }
}

/// The bytes of one tagged field: its tag varint, then its payload.
pub open spec fn wire_struct_bytes(ws: SpecWireStruct) -> Seq<u8> {
    varint_bytes(tag_value(ws.field_number, wire_type_num(ws.data))) + wire_payload_bytes(ws.data)
}

/// The bytes of a whole frame: each field in order, except that fields
/// holding their shape's zero value are elided entirely.
pub open spec fn frame_bytes(l: Seq<SpecWireStruct>) -> Seq<u8>
    decreases l.len(),
{
    if l.len() == 0 {
        Seq::empty()
    } else {
        (if wire_data_is_empty(l[0].data) {
            Seq::empty()
        } else {
            wire_struct_bytes(l[0])
        }) + frame_bytes(l.skip(1))
    }
}

/// The models of a sequence of wire structs.
pub open spec fn spec_views(l: Seq<WireStruct>) -> Seq<SpecWireStruct> {
    l.map_values(|w: WireStruct| w@)
}

/// 128 raised to `k`.
pub open spec fn pow128(k: nat) -> nat
    decreases k,
{
    if k == 0 {
        1
    } else {
        128 * pow128((k - 1) as nat)
    }
}

/// 2 raised to `k`.
pub open spec fn two_pow(k: nat) -> nat
    decreases k,
{
    if k == 0 {
        1
    } else {
        2 * two_pow((k - 1) as nat)
    }
}

/// The number of bits needed to write `n` in binary; 0 for 0.
pub open spec fn bit_length(n: nat) -> nat
    decreases n,
{
    if n == 0 {
        0
    } else {
        1 + bit_length(n / 2)
    }
}

/// A value below `two_pow(k)` needs at most `k` bits.
proof fn lemma_bit_length_bound(n: nat, k: nat)
    requires
        n < two_pow(k),
    ensures
        bit_length(n) <= k,
    decreases k,
{
    if n > 0 {
        assert(k > 0);
        assert(n / 2 < two_pow((k - 1) as nat));
        lemma_bit_length_bound(n / 2, (k - 1) as nat);
    }
}

/// Dividing by 128 drops exactly seven bits off a value of at least 128.
proof fn lemma_bit_length_div128(n: nat)
    requires
        n >= 128,
    ensures
        bit_length(n) == bit_length(n / 128) + 7,
    decreases n,
{
    broadcast use vstd::arithmetic::div_mod::lemma_div_denominator;

    let n1 = n / 2;
    let n2 = n1 / 2;
    let n3 = n2 / 2;
    let n4 = n3 / 2;
    let n5 = n4 / 2;
    let n6 = n5 / 2;
    let n7 = n6 / 2;
    assert(n2 == n as int / 4);
    assert(n3 == n as int / 8);
    assert(n4 == n as int / 16);
    assert(n5 == n as int / 32);
    assert(n6 == n as int / 64);
    assert(n7 == n as int / 128);
    assert(bit_length(n) == 1 + bit_length(n1));
    assert(bit_length(n1) == 1 + bit_length(n2));
    assert(bit_length(n2) == 1 + bit_length(n3));
    assert(bit_length(n3) == 1 + bit_length(n4));
    assert(bit_length(n4) == 1 + bit_length(n5));
    assert(bit_length(n5) == 1 + bit_length(n6));
    assert(bit_length(n6) == 1 + bit_length(n7));
}

/// Law: the varint encoding is minimal — it spends exactly one byte per
/// seven bits of the value, and no byte at all on zero.
pub proof fn lemma_varint_minimal(n: u128)
    ensures
        varint_bytes(n).len() == (bit_length(n as nat) + 6) / 7,
    decreases n,
{
    if n == 0 {
    } else if n / 128 == 0 {
        assert(varint_bytes(n).len() == 1);
        assert(n < 128);
        assert(two_pow(7) == 128) by {
            reveal_with_fuel(two_pow, 8);
        }
        lemma_bit_length_bound(n as nat, 7);
        assert(bit_length(n as nat) >= 1);
        assert((bit_length(n as nat) + 6) / 7 == 1);
    } else {
        assert(varint_bytes(n).len() == 1 + varint_bytes(n / 128).len());
        lemma_varint_minimal(n / 128);
        assert(n >= 128);
        lemma_bit_length_div128(n as nat);
        let d = bit_length((n / 128) as nat);
        assert((n as nat) / 128 == (n / 128) as nat);
        assert(bit_length(n as nat) == d + 7);
        assert((d + 7 + 6) / 7 == 1 + (d + 6) / 7);
    }
}

/// A value below `pow128(k)` encodes in at most `k` bytes.
proof fn lemma_varint_bytes_len_bound(n: u128, k: nat)
    requires
        (n as nat) < pow128(k),
    ensures
        varint_bytes(n).len() <= k,
    decreases k,
{
    if n != 0 {
        assert(pow128(0) == 1);
        assert(k > 0);
        assert(pow128(k) == 128 * pow128((k - 1) as nat));
        assert((n as nat) / 128 < pow128((k - 1) as nat)) by {
            vstd::arithmetic::div_mod::lemma_multiply_divide_lt(
                n as int,
                pow128((k - 1) as nat) as int,
                128,
            );
        }
        lemma_varint_bytes_len_bound(n / 128, (k - 1) as nat);
    }
}

/// No varint encoding is longer than 19 bytes.
pub proof fn lemma_varint_bytes_len(n: u128)
    ensures
        varint_bytes(n).len() <= 19,
{
    assert((n as nat) < pow128(19)) by {
        reveal_with_fuel(pow128, 20);
    }
    lemma_varint_bytes_len_bound(n, 19);
}

/// The exact byte count the varint encoding of `input` will take, used to
/// pre-size output buffers.
pub fn calc_capacity(input: u128) -> (r: usize)
    ensures
        r == varint_bytes(input).len(),
{
    proof {
        lemma_varint_bytes_len(input);
    }
    let mut n: u128 = input;
    let mut count: usize = 0;
    while n != 0
        invariant
            count + varint_bytes(n).len() == varint_bytes(input).len(),
            varint_bytes(input).len() <= 19,
        decreases n,
    {
        n = n / 128;
        count = count + 1;
    }
    count
}

/// Appends the varint encoding of `input`: seven payload bits per byte,
/// least-significant group first, continuation bit on all but the last
/// byte.  Writes nothing for zero.
pub fn encode_variants(data: &mut Vec<u8>, input: u128) -> (r: Result<(), Error>)
    ensures
        final(data)@ == old(data)@ + varint_bytes(input),
        r is Ok,
{
    let ghost orig: Seq<u8> = old(data)@;
    let mut n: u128 = input;
    while n != 0
        invariant
            orig + varint_bytes(input) == data@ + varint_bytes(n),
        decreases n,
    {
        let ghost pre: Seq<u8> = data@;
        let b: u8 = (n % 128) as u8;
        let rest: u128 = n / 128;
        let byte: u8 = if rest != 0 {
            b + 128
        } else {
            b
        };
        data.push(byte);
        proof {
            assert(varint_bytes(n) =~= seq![byte] + varint_bytes(rest));
            assert(data@ + varint_bytes(rest) =~= pre + varint_bytes(n));
        }
        n = rest;
    }
    proof {
        assert(data@ =~= orig + varint_bytes(input));
    }
    Ok(())
}

/// Appends the back-to-back varint encodings of all the given values, as a
/// packed repeated payload is laid out.
pub fn encode_repeat(data: &mut Vec<u8>, input: Vec<u128>) -> (r: Result<(), Error>)
    ensures
        final(data)@ == old(data)@ + repeat_bytes(input@),
        r is Ok,
{
    let ghost orig: Seq<u8> = old(data)@;
    let ghost vals: Seq<u128> = input@;
    proof {
        assert(vals.skip(0) =~= vals);
    }
    let mut i: usize = 0;
    while i < input.len()
        invariant
            i <= input.len(),
            vals == input@,
            data@ + repeat_bytes(vals.skip(i as int)) == orig + repeat_bytes(vals),
        decreases input.len() - i,
    {
        let ghost pre: Seq<u8> = data@;
        let _r = encode_variants(data, input[i]);
        proof {
            assert(vals.skip(i as int).skip(1) =~= vals.skip(i as int + 1));
            assert(repeat_bytes(vals.skip(i as int)) == varint_bytes(vals[i as int])
                + repeat_bytes(vals.skip(i as int + 1)));
            assert(data@ + repeat_bytes(vals.skip(i as int + 1)) =~= pre + repeat_bytes(
                vals.skip(i as int),
            ));
        }
        i = i + 1;
    }
    proof {
        assert(vals.skip(input.len() as int) =~= Seq::<u128>::empty());
        assert(data@ =~= orig + repeat_bytes(vals));
    }
    Ok(())
}

/// Appends a length-delimited payload: its byte count as a varint, then the
/// bytes themselves.
pub fn encode_length_delimited(data: &mut Vec<u8>, input: Vec<u8>) -> (r: Result<(), Error>)
    ensures
        final(data)@ == old(data)@ + length_delimited_bytes(input@),
        r is Ok,
{
    let ghost orig: Seq<u8> = old(data)@;
    let _r = encode_variants(data, input.len() as u128);
    let ghost mid: Seq<u8> = data@;
    let mut i: usize = 0;
    while i < input.len()
        invariant
            i <= input.len(),
            data@ == mid + input@.take(i as int),
            mid == orig + varint_bytes(input@.len() as u128),
        decreases input.len() - i,
    {
        let b: u8 = input[i];
        data.push(b);
        proof {
            assert(input@.take(i as int) + seq![b] =~= input@.take(i as int + 1));
            assert((mid + input@.take(i as int)) + seq![b] =~= mid + input@.take(i as int + 1));
        }
        i = i + 1;
    }
    proof {
        assert(input@.take(input.len() as int) =~= input@);
        assert(data@ =~= orig + length_delimited_bytes(input@));
    }
    Ok(())
}

/// Appends a fixed-width payload byte for byte.
pub fn encode<const BYTE_SIZE: usize>(data: &mut Vec<u8>, input: [u8; BYTE_SIZE]) -> (r: Result<
    (),
    Error,
>)
    ensures
        final(data)@ == old(data)@ + input@,
        r is Ok,
{
    broadcast use vstd::array::group_array_axioms;

    let ghost orig: Seq<u8> = old(data)@;
    let mut i: usize = 0;
    while i < BYTE_SIZE
        invariant
            i <= BYTE_SIZE,
            data@ == orig + input@.take(i as int),
        decreases BYTE_SIZE - i,
    {
        let b: u8 = input[i];
        data.push(b);
        proof {
            assert(input@.take(i as int) + seq![b] =~= input@.take(i as int + 1));
            assert((orig + input@.take(i as int)) + seq![b] =~= orig + input@.take(i as int + 1));
        }
        i = i + 1;
    }
    proof {
        assert(input@.take(BYTE_SIZE as int) =~= input@);
        assert(data@ =~= orig + input@);
    }
    Ok(())
}

/// Appends a tag: the field number shifted left by three, packed with the
/// wire-type discriminant, as one varint.
pub fn encode_tag(data: &mut Vec<u8>, field_number: u128, field_type: u128) -> (r: Result<
    (),
    Error,
>)
    requires
        field_number <= MAX_FIELD_NUMBER,
        field_type <= 7,
    ensures
        final(data)@ == old(data)@ + varint_bytes(tag_value(field_number, field_type)),
        r is Ok,
{
    let input: u128 = field_number * 8 + field_type;
    encode_variants(data, input)
}

/// Appends one tagged field: its tag, then its payload in the shape the
/// wire type dictates.
pub fn encode_struct(data: &mut Vec<u8>, input: WireStruct) -> (r: Result<(), Error>)
    requires
        input@.field_number <= MAX_FIELD_NUMBER,
    ensures
        final(data)@ == old(data)@ + wire_struct_bytes(input@),
        r is Ok,
{
    let ghost orig: Seq<u8> = old(data)@;
    let ghost model: SpecWireStruct = input@;
    let field_type: u128 = input.wire_type.type_number();
    let _r = encode_tag(data, input.field_number, field_type);
    let ghost mid: Seq<u8> = data@;
    match input.wire_type {
        WireData::Varint(v) => {
            let _r = encode_variants(data, v.value);
        },
        WireData::Bit64(b) => {
            let _r = encode::<8>(data, b.value);
        },
        WireData::LengthDelimited(l) => {
            let _r = encode_length_delimited(data, l.value);
        },
        WireData::Bit32(b) => {
            let _r = encode::<4>(data, b.value);
        },
    }
    proof {
        assert(data@ == mid + wire_payload_bytes(model.data));
        assert(data@ =~= orig + wire_struct_bytes(model));
    }
    Ok(())
}

/// Encodes a whole frame: each field in caller order, tag then payload,
/// skipping every field whose value is its shape's zero value.
pub fn encode_wire_binary(data: &mut Vec<u8>, inputs: Vec<WireStruct>) -> (r: Result<(), Error>)
    requires
        forall|i: int|
            0 <= i < inputs@.len() ==> (#[trigger] inputs@[i])@.field_number <= MAX_FIELD_NUMBER,
    ensures
        final(data)@ == old(data)@ + frame_bytes(spec_views(inputs@)),
        r is Ok,
{
    let ghost orig: Seq<u8> = old(data)@;
    let ghost models: Seq<SpecWireStruct> = spec_views(inputs@);
    proof {
        assert(models.skip(0) =~= models);
    }
    let mut i: usize = 0;
    while i < inputs.len()
        invariant
            i <= inputs.len(),
            models == spec_views(inputs@),
            forall|j: int|
                0 <= j < inputs@.len() ==> (#[trigger] inputs@[j])@.field_number
                    <= MAX_FIELD_NUMBER,
            data@ + frame_bytes(models.skip(i as int)) == orig + frame_bytes(models),
        decreases inputs.len() - i,
    {
        let ghost pre: Seq<u8> = data@;
        proof {
            assert(models[i as int] == inputs@[i as int]@);
            assert(models.skip(i as int).skip(1) =~= models.skip(i as int + 1));
            assert(models.skip(i as int)[0] == models[i as int]);
        }
        let ws: &WireStruct = &inputs[i];
        if !ws.is_empty() {
            let _r = encode_struct(data, ws.clone());
            proof {
                assert(frame_bytes(models.skip(i as int)) == wire_struct_bytes(models[i as int])
                    + frame_bytes(models.skip(i as int + 1)));
                assert(data@ + frame_bytes(models.skip(i as int + 1)) =~= pre + frame_bytes(
                    models.skip(i as int),
                ));
            }
        } else {
            proof {
                assert(frame_bytes(models.skip(i as int)) == Seq::<u8>::empty() + frame_bytes(
                    models.skip(i as int + 1),
                ));
                assert(frame_bytes(models.skip(i as int)) =~= frame_bytes(
                    models.skip(i as int + 1),
                ));
            }
        }
        i = i + 1;
    }
    proof {
        assert(models.skip(inputs.len() as int) =~= Seq::<SpecWireStruct>::empty());
        assert(data@ =~= orig + frame_bytes(models));
    }
    Ok(())
}

} // verus!
