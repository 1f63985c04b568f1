//! The body codec: a fixed-width MessagePack subset over primitive values.
//!
//! Every number is written in its widest form (one tag byte plus a fixed
//! big-endian payload), every string, array and map carries a four-byte
//! length, so each value has exactly one encoding and the decoder is the
//! inverse of the encoder.

use crate::bytes::{be32, be64, from_be16, from_be32, from_be64, lemma_be32_roundtrip,
    lemma_be64_roundtrip, lemma_i64_bits_roundtrip, lemma_skip_skip, push_be32, push_be64,
    push_bytes};
use crate::value::{PrimitiveValue, ValueModel, vmodel, vmodels, vmodels_props, wf_model};
use vstd::prelude::*;
use vstd::string::StrSliceExecFns;
use vstd::utf8::{decode_utf8, encode_utf8, valid_utf8};

verus! {

broadcast use vstd::std_specs::vec::group_vec_axioms, vstd::utf8::encode_utf8_valid_utf8,
    vstd::utf8::encode_utf8_decode_utf8;

/// Tag byte of `false`.
pub const TAG_FALSE: u8 = 0xc2;

/// Tag byte of `true`.
pub const TAG_TRUE: u8 = 0xc3;

/// Tag byte of an unsigned 64-bit number.
pub const TAG_UINT: u8 = 0xcf;

/// Tag byte of a signed 64-bit number.
pub const TAG_INT: u8 = 0xd3;

/// Tag byte of a binary64 floating-point bit pattern.
pub const TAG_FLOAT: u8 = 0xcb;

/// Tag byte of a string with a four-byte length.
pub const TAG_STR: u8 = 0xdb;

/// Tag byte of an array with a four-byte member count.
pub const TAG_ARRAY: u8 = 0xdd;

/// Tag byte of a map with a four-byte entry count.
pub const TAG_MAP: u8 = 0xdf;

/// The encoding of a string: its tag, the byte length, the UTF-8 bytes.
pub open spec fn enc_str(s: Seq<char>) -> Seq<u8> {
    seq![TAG_STR] + be32(encode_utf8(s).len() as u32) + encode_utf8(s)
}

/// The encoding of a value.
pub open spec fn enc_val(m: ValueModel) -> Seq<u8>
    decreases m,
    via enc_val_decreases
{
    match m {
        ValueModel::Str(s) => enc_str(s),
        ValueModel::Int(n) => seq![TAG_INT] + be64(n as u64),
        ValueModel::Uint(n) => seq![TAG_UINT] + be64(n),
        ValueModel::Float(b) => seq![TAG_FLOAT] + be64(b),
        ValueModel::Boolean(b) => if b {
            seq![TAG_TRUE]
        } else {
            seq![TAG_FALSE]
        },
        ValueModel::Array(xs) => seq![TAG_ARRAY] + be32(xs.len() as u32) + enc_vals(xs),
    }
}

/// The encodings of a sequence of values, one after the other.
pub open spec fn enc_vals(xs: Seq<ValueModel>) -> Seq<u8>
    decreases xs,
{
    if xs.len() == 0 {
        Seq::empty()
    } else {
        enc_val(xs[0]) + enc_vals(xs.subrange(1, xs.len() as int))
    }
}

#[via_fn]
proof fn enc_val_decreases(m: ValueModel) {
    if m is Array {
        assert(decreases_to!(m => m->Array_0));
    }
}

/// The byte length and header length of the string whose header opens `s`:
/// any of the standard string forms is accepted.
#[verifier::opaque]
pub open spec fn dec_str_len(s: Seq<u8>) -> Option<(int, int)> {
    if s.len() < 1 {
        Option::None
    } else if 0xa0 <= s[0] <= 0xbf {
        Option::Some(((s[0] & 0x1f) as int, 1))
    } else if s[0] == 0xd9 {
        if s.len() < 2 {
            Option::None
        } else {
            Option::Some((s[1] as int, 2))
        }
    } else if s[0] == 0xda {
        if s.len() < 3 {
            Option::None
        } else {
            Option::Some((from_be16(s[1], s[2]) as int, 3))
        }
    } else if s[0] == TAG_STR {
        if s.len() < 5 {
            Option::None
        } else {
            Option::Some((from_be32(s[1], s[2], s[3], s[4]) as int, 5))
        }
    } else {
        Option::None
    }
}

/// The string decoded at the head of `s`, with the count of bytes consumed.
pub open spec fn dec_str(s: Seq<u8>) -> Option<(Seq<char>, int)> {
    match dec_str_len(s) {
        Option::None => Option::None,
        Option::Some((n, h)) => if s.len() < h + n {
            Option::None
        } else {
            let bs = s.subrange(h as int, h + n);
            if valid_utf8(bs) {
                Option::Some((decode_utf8(bs), h + n))
            } else {
                Option::None
            }
        },
    }
}

/// The member count and header length of the array whose header opens `s`:
/// any of the standard array forms is accepted.
#[verifier::opaque]
pub open spec fn dec_arr_len(s: Seq<u8>) -> Option<(int, int)> {
    if s.len() < 1 {
        Option::None
    } else if 0x90 <= s[0] <= 0x9f {
        Option::Some(((s[0] & 0x0f) as int, 1))
    } else if s[0] == 0xdc {
        if s.len() < 3 {
            Option::None
        } else {
            Option::Some((from_be16(s[1], s[2]) as int, 3))
        }
    } else if s[0] == TAG_ARRAY {
        if s.len() < 5 {
            Option::None
        } else {
            Option::Some((from_be32(s[1], s[2], s[3], s[4]) as int, 5))
        }
    } else {
        Option::None
    }
}

/// The unsigned number decoded at the head of `s`, in any of the standard
/// unsigned forms, with the count of bytes consumed.
#[verifier::opaque]
pub open spec fn dec_uint_val(s: Seq<u8>) -> Option<(u64, int)> {
    if s.len() < 1 {
        Option::None
    } else if s[0] <= 0x7f {
        Option::Some((s[0] as u64, 1))
    } else if s[0] == 0xcc {
        if s.len() < 2 {
            Option::None
        } else {
            Option::Some((s[1] as u64, 2))
        }
    } else if s[0] == 0xcd {
        if s.len() < 3 {
            Option::None
        } else {
            Option::Some((from_be16(s[1], s[2]) as u64, 3))
        }
    } else if s[0] == 0xce {
        if s.len() < 5 {
            Option::None
        } else {
            Option::Some((from_be32(s[1], s[2], s[3], s[4]) as u64, 5))
        }
    } else if s[0] == TAG_UINT {
        if s.len() < 9 {
            Option::None
        } else {
            Option::Some((from_be64(s[1], s[2], s[3], s[4], s[5], s[6], s[7], s[8]), 9))
        }
    } else {
        Option::None
    }
}

/// The signed number decoded at the head of `s`, in any of the standard
/// signed forms, with the count of bytes consumed.
#[verifier::opaque]
pub open spec fn dec_int_val(s: Seq<u8>) -> Option<(i64, int)> {
    if s.len() < 1 {
        Option::None
    } else if s[0] >= 0xe0 {
        Option::Some((s[0] as i8 as i64, 1))
    } else if s[0] == 0xd0 {
        if s.len() < 2 {
            Option::None
        } else {
            Option::Some((s[1] as i8 as i64, 2))
        }
    } else if s[0] == 0xd1 {
        if s.len() < 3 {
            Option::None
        } else {
            Option::Some((from_be16(s[1], s[2]) as i16 as i64, 3))
        }
    } else if s[0] == 0xd2 {
        if s.len() < 5 {
            Option::None
        } else {
            Option::Some((from_be32(s[1], s[2], s[3], s[4]) as i32 as i64, 5))
        }
    } else if s[0] == TAG_INT {
        if s.len() < 9 {
            Option::None
        } else {
            Option::Some((from_be64(s[1], s[2], s[3], s[4], s[5], s[6], s[7], s[8]) as i64, 9))
        }
    } else {
        Option::None
    }
}

/// The value decoded at the head of `s`, with the count of bytes consumed.
/// Numbers, strings and arrays are accepted in every standard form; the
/// encoder emits only the widest form of each.
pub open spec fn dec_val(s: Seq<u8>) -> Option<(ValueModel, int)>
    decreases s.len(), 0int, 0int,
    via dec_val_decreases
{
    if s.len() < 1 {
        Option::None
    } else if s[0] == TAG_FALSE {
        Option::Some((ValueModel::Boolean(false), 1))
    } else if s[0] == TAG_TRUE {
        Option::Some((ValueModel::Boolean(true), 1))
    } else if s[0] <= 0x7f || s[0] == 0xcc || s[0] == 0xcd || s[0] == 0xce || s[0] == TAG_UINT {
        match dec_uint_val(s) {
            Option::None => Option::None,
            Option::Some((n, c)) => Option::Some((ValueModel::Uint(n), c)),
        }
    } else if s[0] >= 0xe0 || s[0] == 0xd0 || s[0] == 0xd1 || s[0] == 0xd2 || s[0] == TAG_INT {
        match dec_int_val(s) {
            Option::None => Option::None,
            Option::Some((n, c)) => Option::Some((ValueModel::Int(n), c)),
        }
    } else if s[0] == TAG_FLOAT {
        if s.len() < 9 {
            Option::None
        } else {
            Option::Some(
                (
                    ValueModel::Float(from_be64(s[1], s[2], s[3], s[4], s[5], s[6], s[7], s[8])),
                    9,
                ),
            )
        }
    } else if 0xa0 <= s[0] <= 0xbf || s[0] == 0xd9 || s[0] == 0xda || s[0] == TAG_STR {
        match dec_str(s) {
            Option::None => Option::None,
            Option::Some((cs, c)) => Option::Some((ValueModel::Str(cs), c)),
        }
    } else if 0x90 <= s[0] <= 0x9f || s[0] == 0xdc || s[0] == TAG_ARRAY {
        match dec_arr_len(s) {
            Option::None => Option::None,
            Option::Some((n, h)) => match dec_vals(s.skip(h as int), n) {
                Option::None => Option::None,
                Option::Some((vs, c)) => Option::Some((ValueModel::Array(vs), h + c)),
            },
        }
    } else {
        Option::None
    }
}

#[via_fn]
proof fn dec_val_decreases(s: Seq<u8>) {
    reveal(dec_arr_len);
}

/// The `n` values decoded one after the other at the head of `s`.
pub open spec fn dec_vals(s: Seq<u8>, n: int) -> Option<(Seq<ValueModel>, int)>
    decreases s.len(), 1int, n,
{
    if n <= 0 {
        Option::Some((Seq::empty(), 0))
    } else {
        match dec_val(s) {
            Option::None => Option::None,
            Option::Some((v, c)) => if 1 <= c <= s.len() {
                match dec_vals(s.skip(c), n - 1) {
                    Option::None => Option::None,
                    Option::Some((vs, c2)) => Option::Some((seq![v] + vs, c + c2)),
                }
            } else {
                Option::None
            },
        }
    }
}

/// A successful decode consumes at least one byte, never more than there
/// are, and yields a well-formed value.
pub proof fn lemma_dec_val_bounds(s: Seq<u8>)
    ensures
        dec_val(s) matches Option::Some((v, c)) ==> 1 <= c <= s.len() && wf_model(v),
    decreases s.len(), 0int, 0int,
{
    reveal(dec_str_len);
    reveal(dec_arr_len);
    reveal(dec_uint_val);
    reveal(dec_int_val);
    if s.len() >= 1 {
        if let Option::Some((n, h)) = dec_arr_len(s) {
            lemma_dec_vals_bounds(s.skip(h as int), n);
        }
        if let Option::Some((n, h)) = dec_str_len(s) {
            if s.len() >= h + n {
                let bs = s.subrange(h as int, h + n);
                if valid_utf8(bs) {
                    vstd::utf8::decode_utf8_encode_utf8(bs);
                    assert(encode_utf8(decode_utf8(bs)).len() == n);
                }
            }
        }
    }
}

/// A successful decode of `n` values consumes no more bytes than there are
/// and yields `n` well-formed values.
pub proof fn lemma_dec_vals_bounds(s: Seq<u8>, n: int)
    ensures
        dec_vals(s, n) matches Option::Some((vs, c)) ==> 0 <= c <= s.len() && vs.len() == (if n
            <= 0 {
            0int
        } else {
            n
        }) && (forall|i: int| 0 <= i < vs.len() ==> wf_model(#[trigger] vs[i])),
    decreases s.len(), 1int, n,
{
    if n > 0 {
        lemma_dec_val_bounds(s);
        if let Option::Some((v, c)) = dec_val(s) {
            if 1 <= c <= s.len() {
                lemma_dec_vals_bounds(s.skip(c), n - 1);
            }
        }
    }
}

/// Decoding inverts encoding on strings, whatever bytes follow.
pub proof fn lemma_dec_enc_str(cs: Seq<char>, rest: Seq<u8>)
    requires
        encode_utf8(cs).len() < 0x1_0000_0000,
    ensures
        dec_str(enc_str(cs) + rest) == Option::Some((cs, enc_str(cs).len() as int)),
{
    reveal(dec_str_len);
    let s = enc_str(cs) + rest;
    let bl = encode_utf8(cs).len() as int;
    let l32 = encode_utf8(cs).len() as u32;
    lemma_be32_roundtrip(l32);
    assert(s[0] == TAG_STR);
    assert(s[1] == be32(l32)[0] && s[2] == be32(l32)[1] && s[3] == be32(l32)[2] && s[4] == be32(
        l32,
    )[3]);
    assert(from_be32(s[1], s[2], s[3], s[4]) == l32);
    assert(dec_str_len(s) == Option::Some((bl, 5int)));
    assert(s.subrange(5, 5 + bl) =~= encode_utf8(cs));
}

/// Decoding inverts encoding on values, whatever bytes follow.
pub proof fn lemma_dec_enc_val(m: ValueModel, rest: Seq<u8>)
    requires
        wf_model(m),
    ensures
        dec_val(enc_val(m) + rest) == Option::Some((m, enc_val(m).len() as int)),
    decreases m,
{
    reveal(dec_uint_val);
    reveal(dec_int_val);
    reveal(dec_arr_len);
    let s = enc_val(m) + rest;
    match m {
        ValueModel::Str(cs) => {
            lemma_dec_enc_str(cs, rest);
        },
        ValueModel::Int(n) => {
            lemma_be64_roundtrip(n as u64);
            lemma_i64_bits_roundtrip(n);
            assert(forall|i: int| 1 <= i < 9 ==> s[i] == be64(n as u64)[i - 1]);
        },
        ValueModel::Uint(n) => {
            lemma_be64_roundtrip(n);
            assert(forall|i: int| 1 <= i < 9 ==> s[i] == be64(n)[i - 1]);
        },
        ValueModel::Float(b) => {
            lemma_be64_roundtrip(b);
            assert(forall|i: int| 1 <= i < 9 ==> s[i] == be64(b)[i - 1]);
        },
        ValueModel::Boolean(b) => {
        },
        ValueModel::Array(xs) => {
            let k32 = xs.len() as u32;
            lemma_be32_roundtrip(k32);
            assert(s[0] == TAG_ARRAY);
            assert(s[1] == be32(k32)[0] && s[2] == be32(k32)[1] && s[3] == be32(k32)[2] && s[4]
                == be32(k32)[3]);
            assert(from_be32(s[1], s[2], s[3], s[4]) as int == xs.len());
            assert(dec_arr_len(s) == Option::Some((xs.len() as int, 5int)));
            assert(s.skip(5) =~= enc_vals(xs) + rest);
            lemma_dec_enc_vals(xs, rest);
        },
    }
}

/// Decoding inverts encoding on value sequences, whatever bytes follow.
pub proof fn lemma_dec_enc_vals(xs: Seq<ValueModel>, rest: Seq<u8>)
    requires
        forall|i: int| 0 <= i < xs.len() ==> wf_model(#[trigger] xs[i]),
    ensures
        dec_vals(enc_vals(xs) + rest, xs.len() as int) == Option::Some(
            (xs, enc_vals(xs).len() as int),
        ),
    decreases xs,
{
    if xs.len() == 0 {
        assert(enc_vals(xs) + rest =~= rest);
        assert(dec_vals(rest, 0) == Option::Some((Seq::<ValueModel>::empty(), 0int)));
        assert(Seq::<ValueModel>::empty() =~= xs);
    } else {
        let s = enc_vals(xs) + rest;
        let head = xs[0];
        let tail = xs.subrange(1, xs.len() as int);
        let c0 = enc_val(head).len() as int;
        assert(s =~= enc_val(head) + (enc_vals(tail) + rest));
        lemma_dec_enc_val(head, enc_vals(tail) + rest);
        assert(c0 >= 1) by {
            lemma_dec_val_bounds(s);
        }
        assert(s.skip(c0) =~= enc_vals(tail) + rest);
        lemma_dec_enc_vals(tail, rest);
        assert(seq![head] + tail =~= xs);
    }
}


/// Appending one more value to a sequence appends its encoding.
pub proof fn lemma_enc_vals_snoc(xs: Seq<ValueModel>, x: ValueModel)
    ensures
        enc_vals(xs.push(x)) == enc_vals(xs) + enc_val(x),
    decreases xs,
{
    if xs.len() == 0 {
        reveal_with_fuel(enc_vals, 2);
        assert(xs.push(x)[0] == x);
        assert(xs.push(x).subrange(1, 1) =~= Seq::<ValueModel>::empty());
        assert(enc_vals(xs.push(x)) =~= enc_vals(xs) + enc_val(x));
    } else {
        let ys = xs.push(x);
        assert(ys[0] == xs[0]);
        assert(ys.subrange(1, ys.len() as int) =~= xs.subrange(1, xs.len() as int).push(x));
        lemma_enc_vals_snoc(xs.subrange(1, xs.len() as int), x);
        assert(enc_vals(ys) =~= enc_vals(xs) + enc_val(x));
    }
}

/// Relies on `String::from_utf8` of std: it succeeds exactly on valid UTF-8
/// input and yields the string those bytes spell.
#[verifier::external_body]
fn string_from_utf8(v: Vec<u8>) -> (r: Option<String>)
    ensures
        r is Some <==> valid_utf8(v@),
        r matches Some(st) ==> st@ == decode_utf8(v@),
{
    String::from_utf8(v).ok()
}

/// Copies `n` bytes starting at `pos` into a fresh vector.
pub fn copy_range(s: &Vec<u8>, pos: usize, n: usize) -> (out: Vec<u8>)
    requires
        pos + n <= s.len(),
    ensures
        out@ == s@.subrange(pos as int, pos + n),
{
    let mut out: Vec<u8> = Vec::new();
    let mut i: usize = 0;
    while i < n
        invariant
            i <= n,
            pos + n <= s.len(),
            out@ == s@.subrange(pos as int, pos + i),
        decreases n - i,
    {
        out.push(s[pos + i]);
        proof {
            assert(s@.subrange(pos as int, pos + i) + seq![s@[pos + i]] =~= s@.subrange(
                pos as int,
                pos + (i + 1),
            ));
        }
        i = i + 1;
    }
    out
}

/// Appends the encoding of a string.
pub fn encode_string(st: &str, out: &mut Vec<u8>)
    requires
        encode_utf8(st@).len() < 0x1_0000_0000,
    ensures
        final(out)@ == old(out)@ + enc_str(st@),
{
    out.push(TAG_STR);
    let bv = st.as_bytes_vec();
    push_be32(out, bv.len() as u32);
    push_bytes(out, &bv);
    proof {
        assert(out@ =~= old(out)@ + enc_str(st@));
    }
}

/// Appends the encoding of a value.
pub fn encode_value(v: &PrimitiveValue, out: &mut Vec<u8>)
    requires
        wf_model(v@),
    ensures
        final(out)@ == old(out)@ + enc_val(v@),
    decreases *v,
{
    match v {
        PrimitiveValue::Str(st) => {
            encode_string(st.as_str(), out);
        },
        PrimitiveValue::Int(n) => {
            out.push(TAG_INT);
            push_be64(out, #[verifier::truncate] (*n as u64));
            proof {
                assert(out@ =~= old(out)@ + enc_val(v@));
            }
        },
        PrimitiveValue::Uint(n) => {
            out.push(TAG_UINT);
            push_be64(out, *n);
            proof {
                assert(out@ =~= old(out)@ + enc_val(v@));
            }
        },
        PrimitiveValue::Float(b) => {
            out.push(TAG_FLOAT);
            push_be64(out, *b);
            proof {
                assert(out@ =~= old(out)@ + enc_val(v@));
            }
        },
        PrimitiveValue::Boolean(b) => {
            out.push(if *b {
                TAG_TRUE
            } else {
                TAG_FALSE
            });
            proof {
                assert(out@ =~= old(out)@ + enc_val(v@));
            }
        },
        PrimitiveValue::Array(xs) => {
            proof {
                assert(decreases_to!(*v => (*v)->Array_0));
                assert(decreases_to!((*v)->Array_0 => (*v)->Array_0@));
                vmodels_props(xs@);
                assert forall|i: int| 0 <= i < xs@.len() implies wf_model(
                    vmodel(#[trigger] xs@[i]),
                ) by {
                    assert(wf_model(vmodels(xs@)[i]));
                }
            }
            out.push(TAG_ARRAY);
            push_be32(out, xs.len() as u32);
            encode_values(xs, out);
            proof {
                assert(out@ =~= old(out)@ + enc_val(v@));
            }
        },
    }
}

/// Appends the encodings of every value in `xs`, in order.
fn encode_values(xs: &Vec<PrimitiveValue>, out: &mut Vec<u8>)
    requires
        forall|i: int| 0 <= i < xs@.len() ==> wf_model(vmodel(#[trigger] xs@[i])),
    ensures
        final(out)@ == old(out)@ + enc_vals(vmodels(xs@)),
    decreases xs@,
{
    let mut i: usize = 0;
    while i < xs.len()
        invariant
            i <= xs@.len(),
            forall|j: int| 0 <= j < xs@.len() ==> wf_model(vmodel(#[trigger] xs@[j])),
            out@ == old(out)@ + enc_vals(vmodels(xs@.subrange(0, i as int))),
        decreases xs@.len() - i,
    {
        encode_value(&xs[i], out);
        proof {
            vmodels_props(xs@.subrange(0, i as int));
            vmodels_props(xs@.subrange(0, i + 1));
            assert(vmodels(xs@.subrange(0, i + 1)) =~= vmodels(xs@.subrange(0, i as int)).push(
                vmodel(xs@[i as int]),
            ));
            lemma_enc_vals_snoc(vmodels(xs@.subrange(0, i as int)), vmodel(xs@[i as int]));
            assert(out@ =~= old(out)@ + enc_vals(vmodels(xs@.subrange(0, i + 1))));
        }
        i = i + 1;
    }
    proof {
        assert(xs@.subrange(0, xs@.len() as int) =~= xs@);
    }
}

/// Reads the string encoded at `pos`, in any standard form; its byte length
/// and the count of consumed bytes follow the decoder model exactly.
pub fn decode_string(s: &Vec<u8>, pos: usize) -> (r: Option<(String, usize)>)
    requires
        pos <= s.len(),
    ensures
        match r {
            Option::Some(vc) => {
                &&& dec_str(s@.skip(pos as int)) == Option::Some((vc.0@, vc.1 as int))
                &&& pos + vc.1 <= s.len()
                &&& 1 <= vc.1
                &&& encode_utf8(vc.0@).len() < 0x1_0000_0000
            },
            Option::None => dec_str(s@.skip(pos as int)) is None,
        },
{
    proof {
        reveal(dec_str_len);
    }
    let ghost sk = s@.skip(pos as int);
    if s.len() - pos < 1 {
        return Option::None;
    }
    let tag = s[pos];
    proof {
        assert(sk[0] == s@[pos as int]);
    }
    let (n, h): (usize, usize) = if 0xa0 <= tag && tag <= 0xbf {
        ((tag & 0x1f) as usize, 1)
    } else if tag == 0xd9 {
        if s.len() - pos < 2 {
            return Option::None;
        }
        proof {
            assert(sk[1] == s@[pos + 1]);
        }
        (s[pos + 1] as usize, 2)
    } else if tag == 0xda {
        if s.len() - pos < 3 {
            return Option::None;
        }
        let n16 = crate::bytes::read_be16(s, pos + 1);
        proof {
            assert(sk[1] == s@[pos + 1] && sk[2] == s@[pos + 2]);
        }
        (n16 as usize, 3)
    } else if tag == TAG_STR {
        if s.len() - pos < 5 {
            return Option::None;
        }
        let n32 = crate::bytes::read_be32(s, pos + 1);
        proof {
            assert(sk[1] == s@[pos + 1] && sk[2] == s@[pos + 2] && sk[3] == s@[pos + 3]
                && sk[4] == s@[pos + 4]);
        }
        (n32 as usize, 5)
    } else {
        return Option::None;
    };
    if s.len() - (pos + h) < n {
        proof {
            assert(sk.len() < h + n);
        }
        return Option::None;
    }
    let bs = copy_range(s, pos + h, n);
    proof {
        assert(bs@ =~= sk.subrange(h as int, h + n));
    }
    match string_from_utf8(bs) {
        Option::Some(st) => {
            proof {
                vstd::utf8::decode_utf8_encode_utf8(sk.subrange(h as int, h + n));
            }
            Option::Some((st, h + n))
        },
        Option::None => Option::None,
    }
}

/// Reads the value encoded at `pos`, in any standard form; what it returns
/// follows the decoder model exactly, and a returned value is well formed.
#[verifier::rlimit(100)]
#[verifier::spinoff_prover]
pub fn decode_value(s: &Vec<u8>, pos: usize) -> (r: Option<(PrimitiveValue, usize)>)
    requires
        pos <= s.len(),
    ensures
        match r {
            Option::Some(vc) => {
                &&& dec_val(s@.skip(pos as int)) == Option::Some((vc.0@, vc.1 as int))
                &&& pos + vc.1 <= s.len()
                &&& wf_model(vc.0@)
            },
            Option::None => dec_val(s@.skip(pos as int)) is None,
        },
    decreases s@.len() - pos, 0int, 0int,
{
    proof {
        reveal(dec_arr_len);
    }
    let ghost sk = s@.skip(pos as int);
    if s.len() - pos < 1 {
        return Option::None;
    }
    let tag = s[pos];
    proof {
        assert(sk[0] == s@[pos as int]);
    }
    if tag == TAG_FALSE {
        Option::Some((PrimitiveValue::Boolean(false), 1))
    } else if tag == TAG_TRUE {
        Option::Some((PrimitiveValue::Boolean(true), 1))
    } else if tag <= 0x7f || tag == 0xcc || tag == 0xcd || tag == 0xce || tag == TAG_UINT {
        match read_uint_val(s, pos) {
            Option::None => Option::None,
            Option::Some((n, c)) => Option::Some((PrimitiveValue::Uint(n), c)),
        }
    } else if tag >= 0xe0 || tag == 0xd0 || tag == 0xd1 || tag == 0xd2 || tag == TAG_INT {
        match read_int_val(s, pos) {
            Option::None => Option::None,
            Option::Some((n, c)) => Option::Some((PrimitiveValue::Int(n), c)),
        }
    } else if tag == TAG_FLOAT {
        if s.len() - pos < 9 {
            Option::None
        } else {
            let n = crate::bytes::read_be64(s, pos + 1);
            proof {
                assert(forall|i: int| 1 <= i < 9 ==> sk[i] == s@[pos + i]);
            }
            Option::Some((PrimitiveValue::Float(n), 9))
        }
    } else if (0xa0 <= tag && tag <= 0xbf) || tag == 0xd9 || tag == 0xda || tag == TAG_STR {
        match decode_string(s, pos) {
            Option::Some((st, c)) => Option::Some((PrimitiveValue::Str(st), c)),
            Option::None => Option::None,
        }
    } else if (0x90 <= tag && tag <= 0x9f) || tag == 0xdc || tag == TAG_ARRAY {
        let (n32, h): (u32, usize) = if 0x90 <= tag && tag <= 0x9f {
            ((tag & 0x0f) as u32, 1)
        } else if tag == 0xdc {
            if s.len() - pos < 3 {
                return Option::None;
            }
            let n16 = crate::bytes::read_be16(s, pos + 1);
            proof {
                assert(sk[1] == s@[pos + 1] && sk[2] == s@[pos + 2]);
            }
            (n16 as u32, 3)
        } else {
            if s.len() - pos < 5 {
                return Option::None;
            }
            let n = crate::bytes::read_be32(s, pos + 1);
            proof {
                assert(sk[1] == s@[pos + 1] && sk[2] == s@[pos + 2] && sk[3] == s@[pos + 3]
                    && sk[4] == s@[pos + 4]);
            }
            (n, 5)
        };
        proof {
            assert(dec_arr_len(sk) == Option::Some((n32 as int, h as int)));
            lemma_skip_skip(s@, pos as int, h as int);
        }
        match decode_values(s, pos + h, n32) {
            Option::Some((vs, c)) => {
                if c > usize::MAX - h {
                    proof {
                        assert(false);
                    }
                    Option::None
                } else {
                    proof {
                        vmodels_props(vs@);
                    }
                    Option::Some((PrimitiveValue::Array(vs), h + c))
                }
            },
            Option::None => Option::None,
        }
    } else {
        Option::None
    }
}

/// Reads the unsigned number at `pos`, in any standard unsigned form.
pub fn read_uint_val(s: &Vec<u8>, pos: usize) -> (r: Option<(u64, usize)>)
    requires
        pos <= s.len(),
    ensures
        match r {
            Option::Some(vc) => dec_uint_val(s@.skip(pos as int)) == Option::Some(
                (vc.0, vc.1 as int),
            ) && pos + vc.1 <= s.len(),
            Option::None => dec_uint_val(s@.skip(pos as int)) is None,
        },
{
    proof {
        reveal(dec_uint_val);
    }
    let ghost sk = s@.skip(pos as int);
    if s.len() - pos < 1 {
        return Option::None;
    }
    let tag = s[pos];
    proof {
        assert(sk[0] == s@[pos as int]);
    }
    if tag <= 0x7f {
        Option::Some((tag as u64, 1))
    } else if tag == 0xcc {
        if s.len() - pos < 2 {
            return Option::None;
        }
        proof {
            assert(sk[1] == s@[pos + 1]);
        }
        Option::Some((s[pos + 1] as u64, 2))
    } else if tag == 0xcd {
        if s.len() - pos < 3 {
            return Option::None;
        }
        let n = crate::bytes::read_be16(s, pos + 1);
        proof {
            assert(sk[1] == s@[pos + 1] && sk[2] == s@[pos + 2]);
        }
        Option::Some((n as u64, 3))
    } else if tag == 0xce {
        if s.len() - pos < 5 {
            return Option::None;
        }
        let n = crate::bytes::read_be32(s, pos + 1);
        proof {
            assert(sk[1] == s@[pos + 1] && sk[2] == s@[pos + 2] && sk[3] == s@[pos + 3]
                && sk[4] == s@[pos + 4]);
        }
        Option::Some((n as u64, 5))
    } else if tag == TAG_UINT {
        if s.len() - pos < 9 {
            return Option::None;
        }
        let n = crate::bytes::read_be64(s, pos + 1);
        proof {
            assert(forall|i: int| 1 <= i < 9 ==> sk[i] == s@[pos + i]);
        }
        Option::Some((n, 9))
    } else {
        Option::None
    }
}

/// Reads the signed number at `pos`, in any standard signed form.
pub fn read_int_val(s: &Vec<u8>, pos: usize) -> (r: Option<(i64, usize)>)
    requires
        pos <= s.len(),
    ensures
        match r {
            Option::Some(vc) => dec_int_val(s@.skip(pos as int)) == Option::Some(
                (vc.0, vc.1 as int),
            ) && pos + vc.1 <= s.len(),
            Option::None => dec_int_val(s@.skip(pos as int)) is None,
        },
{
    proof {
        reveal(dec_int_val);
    }
    let ghost sk = s@.skip(pos as int);
    if s.len() - pos < 1 {
        return Option::None;
    }
    let tag = s[pos];
    proof {
        assert(sk[0] == s@[pos as int]);
    }
    if tag >= 0xe0 {
        Option::Some((#[verifier::truncate] (tag as i8) as i64, 1))
    } else if tag == 0xd0 {
        if s.len() - pos < 2 {
            return Option::None;
        }
        proof {
            assert(sk[1] == s@[pos + 1]);
        }
        Option::Some((#[verifier::truncate] (s[pos + 1] as i8) as i64, 2))
    } else if tag == 0xd1 {
        if s.len() - pos < 3 {
            return Option::None;
        }
        let n = crate::bytes::read_be16(s, pos + 1);
        proof {
            assert(sk[1] == s@[pos + 1] && sk[2] == s@[pos + 2]);
        }
        Option::Some((#[verifier::truncate] (n as i16) as i64, 3))
    } else if tag == 0xd2 {
        if s.len() - pos < 5 {
            return Option::None;
        }
        let n = crate::bytes::read_be32(s, pos + 1);
        proof {
            assert(sk[1] == s@[pos + 1] && sk[2] == s@[pos + 2] && sk[3] == s@[pos + 3]
                && sk[4] == s@[pos + 4]);
        }
        Option::Some((#[verifier::truncate] (n as i32) as i64, 5))
    } else if tag == TAG_INT {
        if s.len() - pos < 9 {
            return Option::None;
        }
        let n = crate::bytes::read_be64(s, pos + 1);
        proof {
            assert(forall|i: int| 1 <= i < 9 ==> sk[i] == s@[pos + i]);
        }
        Option::Some((#[verifier::truncate] (n as i64), 9))
    } else {
        Option::None
    }
}

/// Reads the `n` values encoded one after the other at `pos`; what it
/// returns follows the decoder model exactly.
pub fn decode_values(s: &Vec<u8>, pos: usize, n: u32) -> (r: Option<(Vec<PrimitiveValue>, usize)>)
    requires
        pos <= s.len(),
    ensures
        match r {
            Option::Some(vc) => {
                &&& dec_vals(s@.skip(pos as int), n as int) == Option::Some(
                    (vmodels(vc.0@), vc.1 as int),
                )
                &&& pos + vc.1 <= s.len()
                &&& vc.0@.len() == n
                &&& forall|i: int| 0 <= i < vc.0@.len() ==> wf_model(vmodel(#[trigger] vc.0@[i]))
            },
            Option::None => dec_vals(s@.skip(pos as int), n as int) is None,
        },
    decreases s@.len() - pos, 1int, n,
{
    let ghost sk = s@.skip(pos as int);
    if n == 0 {
        proof {
            assert(vmodels(Seq::<PrimitiveValue>::empty()) =~= Seq::<ValueModel>::empty());
        }
        let out: Vec<PrimitiveValue> = Vec::new();
        return Option::Some((out, 0));
    }
    match decode_value(s, pos) {
        Option::None => Option::None,
        Option::Some((v, c)) => {
            proof {
                lemma_dec_val_bounds(sk);
                lemma_skip_skip(s@, pos as int, c as int);
            }
            match decode_values(s, pos + c, n - 1) {
                Option::None => Option::None,
                Option::Some((vs, c2)) => {
                    let mut out = vs;
                    out.insert(0, v);
                    proof {
                        vmodels_props(out@);
                        vmodels_props(out@.subrange(1, out@.len() as int));
                        assert(out@.subrange(1, out@.len() as int) =~= out@.skip(1));
                        assert(vmodels(out@) =~= seq![vmodel(out@[0])] + vmodels(
                            out@.subrange(1, out@.len() as int),
                        ));
                        assert(out@.subrange(1, out@.len() as int) =~= vs@);
                    }
                    Option::Some((out, c + c2))
                },
            }
        },
    }
}

} // verus!
