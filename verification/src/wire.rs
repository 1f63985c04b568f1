//! The message codec: requests and responses as MessagePack maps keyed by
//! field name, exactly as the schema fixes them, with the stored-record and
//! request-record sub-objects they carry.

use crate::bytes::{be32, be64, from_be16, from_be32, from_be64, lemma_be32_roundtrip,
    lemma_be64_roundtrip, lemma_skip_skip, push_be32, push_be64};
use crate::msgpack::{TAG_ARRAY, TAG_MAP, TAG_TRUE, TAG_UINT, dec_str, dec_val, enc_str, enc_val,
    decode_string, decode_value, encode_string, encode_value, lemma_dec_enc_str,
    lemma_dec_enc_val, lemma_dec_val_bounds};
use crate::protocol::{RequestModel, insert_pairs_model, strs_model, table_pairs_model,
    wf_insert_value, wf_request, wf_str};
use crate::protocol::{Payload, PayloadModel, Request, Response, ResponseModel, Status,
    wf_payload, wf_response};
use crate::value::{InsertTableValue, InsertValueModel, TableValue, TableValueModel, wf_model,
    wf_table_value};
use vstd::prelude::*;
use vstd::string::{StrSliceExecFns, StringSliceAdditionalSpecFns};
use vstd::utf8::{encode_utf8, is_ascii_chars, is_ascii_chars_encode_utf8};

verus! {

broadcast use vstd::std_specs::vec::group_vec_axioms, vstd::string::group_string_axioms;

/// An ASCII string's UTF-8 encoding is one byte per character.
pub proof fn lemma_ascii_wf(s: Seq<char>)
    requires
        is_ascii_chars(s),
        s.len() < 0x1_0000_0000,
    ensures
        wf_str(s),
        encode_utf8(s).len() == s.len(),
{
    is_ascii_chars_encode_utf8(s);
}

/// Concatenation followed by dropping the first part leaves the second.
pub proof fn lemma_unchain(a: Seq<u8>, b: Seq<u8>)
    ensures
        (a + b).skip(a.len() as int) =~= b,
{
}

/// The header of a map with `n` entries.
pub open spec fn enc_map_hdr(n: u32) -> Seq<u8> {
    seq![TAG_MAP] + be32(n)
}

/// The header of an array with `n` members.
pub open spec fn enc_arr_hdr(n: u32) -> Seq<u8> {
    seq![TAG_ARRAY] + be32(n)
}

/// The encoding of an unsigned 64-bit field value.
pub open spec fn enc_uint(n: u64) -> Seq<u8> {
    seq![TAG_UINT] + be64(n)
}

/// The entry count and header length of the map whose header opens `s`:
/// any of the standard map forms is accepted.
pub open spec fn dec_map_hdr(s: Seq<u8>) -> Option<(int, int)> {
    if s.len() < 1 {
        Option::None
    } else if 0x80 <= s[0] <= 0x8f {
        Option::Some(((s[0] & 0x0f) as int, 1))
    } else if s[0] == 0xde {
        if s.len() < 3 {
            Option::None
        } else {
            Option::Some((from_be16(s[1], s[2]) as int, 3))
        }
    } else if s[0] == TAG_MAP {
        if s.len() < 5 {
            Option::None
        } else {
            Option::Some((from_be32(s[1], s[2], s[3], s[4]) as int, 5))
        }
    } else {
        Option::None
    }
}

/// The member count and header length of the array whose header opens `s`:
/// any of the standard array forms is accepted.
pub open spec fn dec_arr_hdr(s: Seq<u8>) -> Option<(int, int)> {
    crate::msgpack::dec_arr_len(s)
}

/// The unsigned number decoded at the head of `s`, in any standard
/// unsigned form.
pub open spec fn dec_uint(s: Seq<u8>) -> Option<(u64, int)> {
    crate::msgpack::dec_uint_val(s)
}

/// Decoding inverts encoding on map headers, whatever bytes follow.
pub proof fn lemma_dec_enc_map_hdr(n: u32, rest: Seq<u8>)
    ensures
        dec_map_hdr(enc_map_hdr(n) + rest) == Option::Some((n as int, 5int)),
{
    let s = enc_map_hdr(n) + rest;
    lemma_be32_roundtrip(n);
    assert(s[0] == TAG_MAP);
    assert(s[1] == be32(n)[0] && s[2] == be32(n)[1] && s[3] == be32(n)[2] && s[4] == be32(n)[3]);
}

/// Decoding inverts encoding on array headers, whatever bytes follow.
pub proof fn lemma_dec_enc_arr_hdr(n: u32, rest: Seq<u8>)
    ensures
        dec_arr_hdr(enc_arr_hdr(n) + rest) == Option::Some((n as int, 5int)),
{
    reveal(crate::msgpack::dec_arr_len);
    let s = enc_arr_hdr(n) + rest;
    lemma_be32_roundtrip(n);
    assert(s[0] == TAG_ARRAY);
    assert(s[1] == be32(n)[0] && s[2] == be32(n)[1] && s[3] == be32(n)[2] && s[4] == be32(n)[3]);
}

/// Decoding inverts encoding on unsigned fields, whatever bytes follow.
pub proof fn lemma_dec_enc_uint(n: u64, rest: Seq<u8>)
    ensures
        dec_uint(enc_uint(n) + rest) == Option::Some((n, 9int)),
{
    reveal(crate::msgpack::dec_uint_val);
    let s = enc_uint(n) + rest;
    lemma_be64_roundtrip(n);
    assert(s[0] == TAG_UINT);
    assert(forall|i: int| 1 <= i < 9 ==> s[i] == be64(n)[i - 1]);
}

/// Appends the header of a map with `n` entries.
pub fn push_map_hdr(out: &mut Vec<u8>, n: u32)
    ensures
        final(out)@ == old(out)@ + enc_map_hdr(n),
{
    out.push(TAG_MAP);
    push_be32(out, n);
    proof {
        assert(out@ =~= old(out)@ + enc_map_hdr(n));
    }
}

/// Appends the header of an array with `n` members.
pub fn push_arr_hdr(out: &mut Vec<u8>, n: u32)
    ensures
        final(out)@ == old(out)@ + enc_arr_hdr(n),
{
    out.push(TAG_ARRAY);
    push_be32(out, n);
    proof {
        assert(out@ =~= old(out)@ + enc_arr_hdr(n));
    }
}

/// Appends the encoding of an unsigned 64-bit field value.
pub fn push_uint(out: &mut Vec<u8>, n: u64)
    ensures
        final(out)@ == old(out)@ + enc_uint(n),
{
    out.push(TAG_UINT);
    push_be64(out, n);
    proof {
        assert(out@ =~= old(out)@ + enc_uint(n));
    }
}

/// Reads the map header at `pos`, in any standard map form.
pub fn read_map_hdr(s: &Vec<u8>, pos: usize) -> (r: Option<(u32, usize)>)
    requires
        pos <= s.len(),
    ensures
        match r {
            Option::Some(nc) => dec_map_hdr(s@.skip(pos as int)) == Option::Some(
                (nc.0 as int, nc.1 as int),
            ) && pos + nc.1 <= s.len() && 1 <= nc.1 <= 5,
            Option::None => dec_map_hdr(s@.skip(pos as int)) is None,
        },
{
    let ghost sk = s@.skip(pos as int);
    if s.len() - pos < 1 {
        return Option::None;
    }
    let tag = s[pos];
    proof {
        assert(sk[0] == s@[pos as int]);
    }
    if 0x80 <= tag && tag <= 0x8f {
        Option::Some(((tag & 0x0f) as u32, 1))
    } else if tag == 0xde {
        if s.len() - pos < 3 {
            return Option::None;
        }
        let n = crate::bytes::read_be16(s, pos + 1);
        proof {
            assert(sk[1] == s@[pos + 1] && sk[2] == s@[pos + 2]);
        }
        Option::Some((n as u32, 3))
    } else if tag == TAG_MAP {
        if s.len() - pos < 5 {
            return Option::None;
        }
        let n = crate::bytes::read_be32(s, pos + 1);
        proof {
            assert(sk[1] == s@[pos + 1] && sk[2] == s@[pos + 2] && sk[3] == s@[pos + 3]
                && sk[4] == s@[pos + 4]);
        }
        Option::Some((n, 5))
    } else {
        Option::None
    }
}

/// Reads the array header at `pos`, in any standard array form.
pub fn read_arr_hdr(s: &Vec<u8>, pos: usize) -> (r: Option<(u32, usize)>)
    requires
        pos <= s.len(),
    ensures
        match r {
            Option::Some(nc) => dec_arr_hdr(s@.skip(pos as int)) == Option::Some(
                (nc.0 as int, nc.1 as int),
            ) && pos + nc.1 <= s.len() && 1 <= nc.1 <= 5,
            Option::None => dec_arr_hdr(s@.skip(pos as int)) is None,
        },
{
    proof {
        reveal(crate::msgpack::dec_arr_len);
    }
    let ghost sk = s@.skip(pos as int);
    if s.len() - pos < 1 {
        return Option::None;
    }
    let tag = s[pos];
    proof {
        assert(sk[0] == s@[pos as int]);
    }
    if 0x90 <= tag && tag <= 0x9f {
        Option::Some(((tag & 0x0f) as u32, 1))
    } else if tag == 0xdc {
        if s.len() - pos < 3 {
            return Option::None;
        }
        let n = crate::bytes::read_be16(s, pos + 1);
        proof {
            assert(sk[1] == s@[pos + 1] && sk[2] == s@[pos + 2]);
        }
        Option::Some((n as u32, 3))
    } else if tag == TAG_ARRAY {
        if s.len() - pos < 5 {
            return Option::None;
        }
        let n = crate::bytes::read_be32(s, pos + 1);
        proof {
            assert(sk[1] == s@[pos + 1] && sk[2] == s@[pos + 2] && sk[3] == s@[pos + 3]
                && sk[4] == s@[pos + 4]);
        }
        Option::Some((n, 5))
    } else {
        Option::None
    }
}

/// Reads the unsigned field at `pos`, in any standard unsigned form.
pub fn read_uint(s: &Vec<u8>, pos: usize) -> (r: Option<(u64, usize)>)
    requires
        pos <= s.len(),
    ensures
        match r {
            Option::Some(nc) => dec_uint(s@.skip(pos as int)) == Option::Some(
                (nc.0, nc.1 as int),
            ) && pos + nc.1 <= s.len(),
            Option::None => dec_uint(s@.skip(pos as int)) is None,
        },
{
    crate::msgpack::read_uint_val(s, pos)
}

/// Whether two strings spell the same characters.
pub fn str_eq(a: &str, b: &str) -> (r: bool)
    ensures
        r <==> a@ == b@,
{
    let av = a.as_bytes_vec();
    let bv = b.as_bytes_vec();
    let r = crate::bytes::bytes_eq(&av, &bv);
    proof {
        if a.spec_bytes() == b.spec_bytes() {
            vstd::utf8::encode_utf8_decode_utf8(a@);
            vstd::utf8::encode_utf8_decode_utf8(b@);
        }
    }
    r
}


/// The encoding of a request-side record: its value and, when it has one,
/// its lifetime.
#[verifier::opaque]
pub open spec fn enc_insert_value(m: InsertValueModel) -> Seq<u8> {
    match m.lifetime {
        Option::None => enc_map_hdr(1) + (enc_str("value"@) + enc_val(m.value)),
        Option::Some(l) => enc_map_hdr(2) + (enc_str("value"@) + (enc_val(m.value) + (enc_str(
            "lifetime"@,
        ) + enc_uint(l)))),
    }
}

/// The request-side record decoded at the head of `s`.
#[verifier::opaque]
pub open spec fn dec_insert_value(s: Seq<u8>) -> Option<(InsertValueModel, int)> {
    match dec_map_hdr(s) {
        Option::None => Option::None,
        Option::Some((n, h)) => if n != 1 && n != 2 {
            Option::None
        } else {
            match dec_str(s.skip(h)) {
                Option::None => Option::None,
                Option::Some((k1, c1)) => if k1 != "value"@ {
                    Option::None
                } else {
                    match dec_val(s.skip(h).skip(c1)) {
                        Option::None => Option::None,
                        Option::Some((v, c2)) => if n == 1 {
                            Option::Some(
                                (InsertValueModel { value: v, lifetime: Option::None }, h + c1 + c2),
                            )
                        } else {
                            match dec_str(s.skip(h).skip(c1).skip(c2)) {
                                Option::None => Option::None,
                                Option::Some((k2, c3)) => if k2 != "lifetime"@ {
                                    Option::None
                                } else {
                                    match dec_uint(s.skip(h).skip(c1).skip(c2).skip(c3)) {
                                        Option::None => Option::None,
                                        Option::Some((l, c4)) => Option::Some(
                                            (
                                                InsertValueModel {
                                                    value: v,
                                                    lifetime: Option::Some(l),
                                                },
                                                h + c1 + c2 + c3 + c4,
                                            ),
                                        ),
                                    }
                                },
                            }
                        },
                    }
                },
            }
        },
    }
}

/// The encoding of a stored record: its value and, when it has one, its
/// expiry instant.
#[verifier::opaque]
pub open spec fn enc_table_value(m: TableValueModel) -> Seq<u8> {
    match m.expiry {
        Option::None => enc_map_hdr(1) + (enc_str("value"@) + enc_val(m.value)),
        Option::Some(e) => enc_map_hdr(2) + (enc_str("value"@) + (enc_val(m.value) + (enc_str(
            "expiry"@,
        ) + enc_uint(e)))),
    }
}

/// The stored record decoded at the head of `s`.
#[verifier::opaque]
pub open spec fn dec_table_value(s: Seq<u8>) -> Option<(TableValueModel, int)> {
    match dec_map_hdr(s) {
        Option::None => Option::None,
        Option::Some((n, h)) => if n != 1 && n != 2 {
            Option::None
        } else {
            match dec_str(s.skip(h)) {
                Option::None => Option::None,
                Option::Some((k1, c1)) => if k1 != "value"@ {
                    Option::None
                } else {
                    match dec_val(s.skip(h).skip(c1)) {
                        Option::None => Option::None,
                        Option::Some((v, c2)) => if n == 1 {
                            Option::Some(
                                (TableValueModel { value: v, expiry: Option::None }, h + c1 + c2),
                            )
                        } else {
                            match dec_str(s.skip(h).skip(c1).skip(c2)) {
                                Option::None => Option::None,
                                Option::Some((k2, c3)) => if k2 != "expiry"@ {
                                    Option::None
                                } else {
                                    match dec_uint(s.skip(h).skip(c1).skip(c2).skip(c3)) {
                                        Option::None => Option::None,
                                        Option::Some((e, c4)) => Option::Some(
                                            (
                                                TableValueModel {
                                                    value: v,
                                                    expiry: Option::Some(e),
                                                },
                                                h + c1 + c2 + c3 + c4,
                                            ),
                                        ),
                                    }
                                },
                            }
                        },
                    }
                },
            }
        },
    }
}

/// Decoding inverts encoding on request-side records without a lifetime.
#[verifier::rlimit(100)]
#[verifier::spinoff_prover]
proof fn lemma_dec_enc_insert_value_bare(m: InsertValueModel, rest: Seq<u8>)
    requires
        wf_insert_value(m),
        m.lifetime is None,
    ensures
        dec_insert_value(enc_insert_value(m) + rest) == Option::Some(
            (m, enc_insert_value(m).len() as int),
        ),
{
    reveal(enc_insert_value);
    reveal(dec_insert_value);
    reveal_strlit("value");
    assert(is_ascii_chars("value"@));
    lemma_ascii_wf("value"@);
    let s = enc_insert_value(m) + rest;
    let kv = enc_str("value"@);
    let vv = enc_val(m.value);
    vstd::seq_lib::lemma_concat_associative(enc_map_hdr(1), kv + vv, rest);
    vstd::seq_lib::lemma_concat_associative(kv, vv, rest);
    assert(s == enc_map_hdr(1) + (kv + (vv + rest)));
    lemma_dec_enc_map_hdr(1, kv + (vv + rest));
    lemma_unchain(enc_map_hdr(1), kv + (vv + rest));
    lemma_dec_enc_str("value"@, vv + rest);
    lemma_unchain(kv, vv + rest);
    lemma_dec_enc_val(m.value, rest);
}
/// Decoding inverts encoding on request-side records with a lifetime.
#[verifier::rlimit(100)]
#[verifier::spinoff_prover]
proof fn lemma_dec_enc_insert_value_lifetime(m: InsertValueModel, rest: Seq<u8>)
    requires
        wf_insert_value(m),
        m.lifetime is Some,
    ensures
        dec_insert_value(enc_insert_value(m) + rest) == Option::Some(
            (m, enc_insert_value(m).len() as int),
        ),
{
    reveal(enc_insert_value);
    reveal(dec_insert_value);
    reveal_strlit("value");
    reveal_strlit("lifetime");
    assert(is_ascii_chars("value"@));
    assert(is_ascii_chars("lifetime"@));
    lemma_ascii_wf("value"@);
    lemma_ascii_wf("lifetime"@);
    let s = enc_insert_value(m) + rest;
    let kv = enc_str("value"@);
    let vv = enc_val(m.value);
    let l = m.lifetime.unwrap();
    let kl = enc_str("lifetime"@);
    let lv = enc_uint(l);
    vstd::seq_lib::lemma_concat_associative(enc_map_hdr(2), kv + (vv + (kl + lv)), rest);
    vstd::seq_lib::lemma_concat_associative(kv, vv + (kl + lv), rest);
    vstd::seq_lib::lemma_concat_associative(vv, kl + lv, rest);
    vstd::seq_lib::lemma_concat_associative(kl, lv, rest);
    assert(s == enc_map_hdr(2) + (kv + (vv + (kl + (lv + rest)))));
    lemma_dec_enc_map_hdr(2, kv + (vv + (kl + (lv + rest))));
    lemma_unchain(enc_map_hdr(2), kv + (vv + (kl + (lv + rest))));
    lemma_dec_enc_str("value"@, vv + (kl + (lv + rest)));
    lemma_unchain(kv, vv + (kl + (lv + rest)));
    lemma_dec_enc_val(m.value, kl + (lv + rest));
    lemma_unchain(vv, kl + (lv + rest));
    lemma_dec_enc_str("lifetime"@, lv + rest);
    lemma_unchain(kl, lv + rest);
    lemma_dec_enc_uint(l, rest);
}
/// Decoding inverts encoding on request-side records, whatever bytes follow.
pub proof fn lemma_dec_enc_insert_value(m: InsertValueModel, rest: Seq<u8>)
    requires
        wf_insert_value(m),
    ensures
        dec_insert_value(enc_insert_value(m) + rest) == Option::Some(
            (m, enc_insert_value(m).len() as int),
        ),
{
    if m.lifetime is None {
        lemma_dec_enc_insert_value_bare(m, rest);
    } else {
        lemma_dec_enc_insert_value_lifetime(m, rest);
    }
}

/// Decoding inverts encoding on stored records without an expiry.
#[verifier::rlimit(100)]
#[verifier::spinoff_prover]
proof fn lemma_dec_enc_table_value_bare(m: TableValueModel, rest: Seq<u8>)
    requires
        wf_table_value(m),
        m.expiry is None,
    ensures
        dec_table_value(enc_table_value(m) + rest) == Option::Some(
            (m, enc_table_value(m).len() as int),
        ),
{
    reveal(enc_table_value);
    reveal(dec_table_value);
    reveal_strlit("value");
    assert(is_ascii_chars("value"@));
    lemma_ascii_wf("value"@);
    let s = enc_table_value(m) + rest;
    let kv = enc_str("value"@);
    let vv = enc_val(m.value);
    vstd::seq_lib::lemma_concat_associative(enc_map_hdr(1), kv + vv, rest);
    vstd::seq_lib::lemma_concat_associative(kv, vv, rest);
    assert(s == enc_map_hdr(1) + (kv + (vv + rest)));
    lemma_dec_enc_map_hdr(1, kv + (vv + rest));
    lemma_unchain(enc_map_hdr(1), kv + (vv + rest));
    lemma_dec_enc_str("value"@, vv + rest);
    lemma_unchain(kv, vv + rest);
    lemma_dec_enc_val(m.value, rest);
}
/// Decoding inverts encoding on stored records with an expiry.
#[verifier::rlimit(100)]
#[verifier::spinoff_prover]
proof fn lemma_dec_enc_table_value_expiry(m: TableValueModel, rest: Seq<u8>)
    requires
        wf_table_value(m),
        m.expiry is Some,
    ensures
        dec_table_value(enc_table_value(m) + rest) == Option::Some(
            (m, enc_table_value(m).len() as int),
        ),
{
    reveal(enc_table_value);
    reveal(dec_table_value);
    reveal_strlit("value");
    reveal_strlit("expiry");
    assert(is_ascii_chars("value"@));
    assert(is_ascii_chars("expiry"@));
    lemma_ascii_wf("value"@);
    lemma_ascii_wf("expiry"@);
    let s = enc_table_value(m) + rest;
    let kv = enc_str("value"@);
    let vv = enc_val(m.value);
    let l = m.expiry.unwrap();
    let kl = enc_str("expiry"@);
    let lv = enc_uint(l);
    vstd::seq_lib::lemma_concat_associative(enc_map_hdr(2), kv + (vv + (kl + lv)), rest);
    vstd::seq_lib::lemma_concat_associative(kv, vv + (kl + lv), rest);
    vstd::seq_lib::lemma_concat_associative(vv, kl + lv, rest);
    vstd::seq_lib::lemma_concat_associative(kl, lv, rest);
    assert(s == enc_map_hdr(2) + (kv + (vv + (kl + (lv + rest)))));
    lemma_dec_enc_map_hdr(2, kv + (vv + (kl + (lv + rest))));
    lemma_unchain(enc_map_hdr(2), kv + (vv + (kl + (lv + rest))));
    lemma_dec_enc_str("value"@, vv + (kl + (lv + rest)));
    lemma_unchain(kv, vv + (kl + (lv + rest)));
    lemma_dec_enc_val(m.value, kl + (lv + rest));
    lemma_unchain(vv, kl + (lv + rest));
    lemma_dec_enc_str("expiry"@, lv + rest);
    lemma_unchain(kl, lv + rest);
    lemma_dec_enc_uint(l, rest);
}
/// Decoding inverts encoding on stored records, whatever bytes follow.
pub proof fn lemma_dec_enc_table_value(m: TableValueModel, rest: Seq<u8>)
    requires
        wf_table_value(m),
    ensures
        dec_table_value(enc_table_value(m) + rest) == Option::Some(
            (m, enc_table_value(m).len() as int),
        ),
{
    if m.expiry is None {
        lemma_dec_enc_table_value_bare(m, rest);
    } else {
        lemma_dec_enc_table_value_expiry(m, rest);
    }
}

/// Appends the encoding of a request-side record.
pub fn encode_insert_value(v: &InsertTableValue, out: &mut Vec<u8>)
    requires
        wf_insert_value(v@),
    ensures
        final(out)@ == old(out)@ + enc_insert_value(v@),
{
    proof {
        reveal(enc_insert_value);
        reveal_strlit("value");
        reveal_strlit("lifetime");
        assert(is_ascii_chars("value"@));
        assert(is_ascii_chars("lifetime"@));
        lemma_ascii_wf("value"@);
        lemma_ascii_wf("lifetime"@);
    }
    match &v.lifetime {
        Option::None => {
            push_map_hdr(out, 1);
            encode_string("value", out);
            encode_value(&v.value, out);
            proof {
                assert(out@ =~= old(out)@ + enc_insert_value(v@));
            }
        },
        Option::Some(l) => {
            push_map_hdr(out, 2);
            encode_string("value", out);
            encode_value(&v.value, out);
            encode_string("lifetime", out);
            push_uint(out, *l);
            proof {
                assert(out@ =~= old(out)@ + enc_insert_value(v@));
            }
        },
    }
}

/// Appends the encoding of a stored record.
pub fn encode_table_value(v: &TableValue, out: &mut Vec<u8>)
    requires
        wf_table_value(v@),
    ensures
        final(out)@ == old(out)@ + enc_table_value(v@),
{
    proof {
        reveal(enc_table_value);
        reveal_strlit("value");
        reveal_strlit("expiry");
        assert(is_ascii_chars("value"@));
        assert(is_ascii_chars("expiry"@));
        lemma_ascii_wf("value"@);
        lemma_ascii_wf("expiry"@);
    }
    match &v.expiry {
        Option::None => {
            push_map_hdr(out, 1);
            encode_string("value", out);
            encode_value(&v.value, out);
            proof {
                assert(out@ =~= old(out)@ + enc_table_value(v@));
            }
        },
        Option::Some(e) => {
            push_map_hdr(out, 2);
            encode_string("value", out);
            encode_value(&v.value, out);
            encode_string("expiry", out);
            push_uint(out, *e);
            proof {
                assert(out@ =~= old(out)@ + enc_table_value(v@));
            }
        },
    }
}

/// Reads the request-side record encoded at `pos`.
#[verifier::rlimit(100)]
#[verifier::spinoff_prover]
pub fn decode_insert_value(s: &Vec<u8>, pos: usize) -> (r: Option<(InsertTableValue, usize)>)
    requires
        pos <= s.len(),
    ensures
        match r {
            Option::Some(vc) => {
                &&& dec_insert_value(s@.skip(pos as int)) == Option::Some((vc.0@, vc.1 as int))
                &&& pos + vc.1 <= s.len()
                &&& wf_insert_value(vc.0@)
            },
            Option::None => dec_insert_value(s@.skip(pos as int)) is None,
        },
{
    proof {
        reveal(dec_insert_value);
    }
    let ghost sk = s@.skip(pos as int);
    let (n, hl) = match read_map_hdr(s, pos) {
        Option::None => {
            return Option::None;
        },
        Option::Some(nc) => nc,
    };
    if n != 1 && n != 2 {
        return Option::None;
    }
    proof {
        lemma_skip_skip(s@, pos as int, hl as int);
    }
    let (k1, c1) = match decode_string(s, pos + hl) {
        Option::None => {
            return Option::None;
        },
        Option::Some(kc) => kc,
    };
    if !str_eq(k1.as_str(), "value") {
        return Option::None;
    }
    proof {
        lemma_skip_skip(s@, pos + hl, c1 as int);
    }
    let (v, c2) = match decode_value(s, pos + hl + c1) {
        Option::None => {
            return Option::None;
        },
        Option::Some(vc) => vc,
    };
    if n == 1 {
        return Option::Some((InsertTableValue { value: v, lifetime: Option::None }, hl + c1 + c2));
    }
    proof {
        lemma_skip_skip(s@, pos + hl + c1, c2 as int);
    }
    let (k2, c3) = match decode_string(s, pos + hl + c1 + c2) {
        Option::None => {
            return Option::None;
        },
        Option::Some(kc) => kc,
    };
    if !str_eq(k2.as_str(), "lifetime") {
        return Option::None;
    }
    proof {
        lemma_skip_skip(s@, pos + hl + c1 + c2, c3 as int);
    }
    let (l, c4) = match read_uint(s, pos + hl + c1 + c2 + c3) {
        Option::None => {
            return Option::None;
        },
        Option::Some(lc) => lc,
    };
    Option::Some((InsertTableValue { value: v, lifetime: Option::Some(l) }, hl + c1 + c2 + c3 + c4))
}

/// Reads the stored record encoded at `pos`.
#[verifier::rlimit(100)]
#[verifier::spinoff_prover]
pub fn decode_table_value(s: &Vec<u8>, pos: usize) -> (r: Option<(TableValue, usize)>)
    requires
        pos <= s.len(),
    ensures
        match r {
            Option::Some(vc) => {
                &&& dec_table_value(s@.skip(pos as int)) == Option::Some((vc.0@, vc.1 as int))
                &&& pos + vc.1 <= s.len()
                &&& wf_table_value(vc.0@)
            },
            Option::None => dec_table_value(s@.skip(pos as int)) is None,
        },
{
    proof {
        reveal(dec_table_value);
    }
    let ghost sk = s@.skip(pos as int);
    let (n, hl) = match read_map_hdr(s, pos) {
        Option::None => {
            return Option::None;
        },
        Option::Some(nc) => nc,
    };
    if n != 1 && n != 2 {
        return Option::None;
    }
    proof {
        lemma_skip_skip(s@, pos as int, hl as int);
    }
    let (k1, c1) = match decode_string(s, pos + hl) {
        Option::None => {
            return Option::None;
        },
        Option::Some(kc) => kc,
    };
    if !str_eq(k1.as_str(), "value") {
        return Option::None;
    }
    proof {
        lemma_skip_skip(s@, pos + hl, c1 as int);
    }
    let (v, c2) = match decode_value(s, pos + hl + c1) {
        Option::None => {
            return Option::None;
        },
        Option::Some(vc) => vc,
    };
    if n == 1 {
        return Option::Some((TableValue { value: v, expiry: Option::None }, hl + c1 + c2));
    }
    proof {
        lemma_skip_skip(s@, pos + hl + c1, c2 as int);
    }
    let (k2, c3) = match decode_string(s, pos + hl + c1 + c2) {
        Option::None => {
            return Option::None;
        },
        Option::Some(kc) => kc,
    };
    if !str_eq(k2.as_str(), "expiry") {
        return Option::None;
    }
    proof {
        lemma_skip_skip(s@, pos + hl + c1 + c2, c3 as int);
    }
    let (e, c4) = match read_uint(s, pos + hl + c1 + c2 + c3) {
        Option::None => {
            return Option::None;
        },
        Option::Some(lc) => lc,
    };
    Option::Some((TableValue { value: v, expiry: Option::Some(e) }, hl + c1 + c2 + c3 + c4))
}


/// The encodings of a sequence of strings, one after the other.
pub open spec fn enc_strs(xs: Seq<Seq<char>>) -> Seq<u8>
    decreases xs,
{
    if xs.len() == 0 {
        Seq::empty()
    } else {
        enc_str(xs[0]) + enc_strs(xs.subrange(1, xs.len() as int))
    }
}

/// The encoding of an array of strings.
pub open spec fn enc_str_array(xs: Seq<Seq<char>>) -> Seq<u8> {
    enc_arr_hdr(xs.len() as u32) + enc_strs(xs)
}

/// The `n` strings decoded one after the other at the head of `s`.
pub open spec fn dec_strs(s: Seq<u8>, n: int) -> Option<(Seq<Seq<char>>, int)>
    decreases n,
{
    if n <= 0 {
        Option::Some((Seq::empty(), 0))
    } else {
        match dec_str(s) {
            Option::None => Option::None,
            Option::Some((cs, c)) => if 1 <= c <= s.len() {
                match dec_strs(s.skip(c), n - 1) {
                    Option::None => Option::None,
                    Option::Some((rs, c2)) => Option::Some((seq![cs] + rs, c + c2)),
                }
            } else {
                Option::None
            },
        }
    }
}

/// The array of strings decoded at the head of `s`.
pub open spec fn dec_str_array(s: Seq<u8>) -> Option<(Seq<Seq<char>>, int)> {
    match dec_arr_hdr(s) {
        Option::None => Option::None,
        Option::Some((n, h)) => match dec_strs(s.skip(h), n) {
            Option::None => Option::None,
            Option::Some((xs, c)) => Option::Some((xs, h + c)),
        },
    }
}

/// Decoding inverts encoding on string sequences, whatever bytes follow.
pub proof fn lemma_dec_enc_strs(xs: Seq<Seq<char>>, rest: Seq<u8>)
    requires
        forall|i: int| 0 <= i < xs.len() ==> wf_str(#[trigger] xs[i]),
    ensures
        dec_strs(enc_strs(xs) + rest, xs.len() as int) == Option::Some(
            (xs, enc_strs(xs).len() as int),
        ),
    decreases xs.len(),
{
    if xs.len() == 0 {
        assert(enc_strs(xs) + rest =~= rest);
        assert(Seq::<Seq<char>>::empty() =~= xs);
    } else {
        let s = enc_strs(xs) + rest;
        let head = xs[0];
        let tail = xs.subrange(1, xs.len() as int);
        let c0 = enc_str(head).len() as int;
        assert(s =~= enc_str(head) + (enc_strs(tail) + rest));
        lemma_dec_enc_str(head, enc_strs(tail) + rest);
        lemma_unchain(enc_str(head), enc_strs(tail) + rest);
        lemma_dec_enc_strs(tail, rest);
        assert(seq![head] + tail =~= xs);
    }
}

/// Decoding inverts encoding on string arrays, whatever bytes follow.
pub proof fn lemma_dec_enc_str_array(xs: Seq<Seq<char>>, rest: Seq<u8>)
    requires
        xs.len() < 0x1_0000_0000,
        forall|i: int| 0 <= i < xs.len() ==> wf_str(#[trigger] xs[i]),
    ensures
        dec_str_array(enc_str_array(xs) + rest) == Option::Some(
            (xs, enc_str_array(xs).len() as int),
        ),
{
    let s = enc_str_array(xs) + rest;
    let n32 = xs.len() as u32;
    assert(s =~= enc_arr_hdr(n32) + (enc_strs(xs) + rest));
    lemma_dec_enc_arr_hdr(n32, enc_strs(xs) + rest);
    lemma_unchain(enc_arr_hdr(n32), enc_strs(xs) + rest);
    lemma_dec_enc_strs(xs, rest);
}

/// Appending one more string to a sequence appends its encoding.
pub proof fn lemma_enc_strs_snoc(xs: Seq<Seq<char>>, x: Seq<char>)
    ensures
        enc_strs(xs.push(x)) == enc_strs(xs) + enc_str(x),
    decreases xs.len(),
{
    if xs.len() == 0 {
        reveal_with_fuel(enc_strs, 2);
        assert(xs.push(x)[0] == x);
        assert(xs.push(x).subrange(1, 1) =~= Seq::<Seq<char>>::empty());
        assert(enc_strs(xs.push(x)) =~= enc_strs(xs) + enc_str(x));
    } else {
        let ys = xs.push(x);
        assert(ys[0] == xs[0]);
        assert(ys.subrange(1, ys.len() as int) =~= xs.subrange(1, xs.len() as int).push(x));
        lemma_enc_strs_snoc(xs.subrange(1, xs.len() as int), x);
        assert(enc_strs(ys) =~= enc_strs(xs) + enc_str(x));
    }
}

/// Appends the encodings of every string in `xs`, in order.
pub fn encode_strs(xs: &Vec<String>, out: &mut Vec<u8>)
    requires
        forall|i: int| 0 <= i < xs@.len() ==> wf_str(#[trigger] xs@[i]@),
    ensures
        final(out)@ == old(out)@ + enc_strs(strs_model(xs@)),
{
    let mut i: usize = 0;
    while i < xs.len()
        invariant
            i <= xs@.len(),
            forall|j: int| 0 <= j < xs@.len() ==> wf_str(#[trigger] xs@[j]@),
            out@ == old(out)@ + enc_strs(strs_model(xs@.subrange(0, i as int))),
        decreases xs@.len() - i,
    {
        encode_string(xs[i].as_str(), out);
        proof {
            assert(strs_model(xs@.subrange(0, i + 1)) =~= strs_model(
                xs@.subrange(0, i as int),
            ).push(xs@[i as int]@));
            lemma_enc_strs_snoc(strs_model(xs@.subrange(0, i as int)), xs@[i as int]@);
            assert(out@ =~= old(out)@ + enc_strs(strs_model(xs@.subrange(0, i + 1))));
        }
        i = i + 1;
    }
    proof {
        assert(xs@.subrange(0, xs@.len() as int) =~= xs@);
    }
}

/// Appends the encoding of an array of strings.
pub fn encode_str_array(xs: &Vec<String>, out: &mut Vec<u8>)
    requires
        xs@.len() < 0x1_0000_0000,
        forall|i: int| 0 <= i < xs@.len() ==> wf_str(#[trigger] xs@[i]@),
    ensures
        final(out)@ == old(out)@ + enc_str_array(strs_model(xs@)),
{
    push_arr_hdr(out, xs.len() as u32);
    encode_strs(xs, out);
    proof {
        assert(out@ =~= old(out)@ + enc_str_array(strs_model(xs@)));
    }
}

/// Reads the `n` strings encoded one after the other at `pos`.
pub fn decode_strs(s: &Vec<u8>, pos: usize, n: u32) -> (r: Option<(Vec<String>, usize)>)
    requires
        pos <= s.len(),
    ensures
        match r {
            Option::Some(vc) => {
                &&& dec_strs(s@.skip(pos as int), n as int) == Option::Some(
                    (strs_model(vc.0@), vc.1 as int),
                )
                &&& pos + vc.1 <= s.len()
                &&& vc.0@.len() == n
                &&& forall|i: int| 0 <= i < vc.0@.len() ==> wf_str(#[trigger] vc.0@[i]@)
            },
            Option::None => dec_strs(s@.skip(pos as int), n as int) is None,
        },
    decreases n,
{
    let ghost sk = s@.skip(pos as int);
    if n == 0 {
        proof {
            assert(strs_model(Seq::<String>::empty()) =~= Seq::<Seq<char>>::empty());
        }
        let out: Vec<String> = Vec::new();
        return Option::Some((out, 0));
    }
    match decode_string(s, pos) {
        Option::None => Option::None,
        Option::Some((cs, c)) => {
            proof {
                lemma_skip_skip(s@, pos as int, c as int);
            }
            match decode_strs(s, pos + c, n - 1) {
                Option::None => Option::None,
                Option::Some((vs, c2)) => {
                    let mut out = vs;
                    out.insert(0, cs);
                    proof {
                        assert(strs_model(out@) =~= seq![out@[0]@] + strs_model(
                            out@.subrange(1, out@.len() as int),
                        ));
                        assert(out@.subrange(1, out@.len() as int) =~= vs@);
                    }
                    Option::Some((out, c + c2))
                },
            }
        },
    }
}

/// Reads the array of strings encoded at `pos`.
pub fn decode_str_array(s: &Vec<u8>, pos: usize) -> (r: Option<(Vec<String>, usize)>)
    requires
        pos <= s.len(),
    ensures
        match r {
            Option::Some(vc) => {
                &&& dec_str_array(s@.skip(pos as int)) == Option::Some(
                    (strs_model(vc.0@), vc.1 as int),
                )
                &&& pos + vc.1 <= s.len()
                &&& vc.0@.len() < 0x1_0000_0000
                &&& forall|i: int| 0 <= i < vc.0@.len() ==> wf_str(#[trigger] vc.0@[i]@)
            },
            Option::None => dec_str_array(s@.skip(pos as int)) is None,
        },
{
    let hdr = match read_arr_hdr(s, pos) {
        Option::None => {
            return Option::None;
        },
        Option::Some(nc) => nc,
    };
    proof {
        lemma_skip_skip(s@, pos as int, hdr.1 as int);
    }
    match decode_strs(s, pos + hdr.1, hdr.0) {
        Option::None => Option::None,
        Option::Some((vs, c)) => Option::Some((vs, hdr.1 + c)),
    }
}



/// A successful record decode consumes at least one byte, never more than
/// there are.
pub proof fn lemma_dec_insert_value_bounds(s: Seq<u8>)
    ensures
        dec_insert_value(s) matches Option::Some((m, c)) ==> 1 <= c <= s.len(),
{
    reveal(dec_insert_value);
    reveal(crate::msgpack::dec_str_len);
    reveal(crate::msgpack::dec_uint_val);
    if let Option::Some((m, c)) = dec_insert_value(s) {
        let h = dec_map_hdr(s).unwrap().1;
        lemma_dec_val_bounds(s.skip(h).skip(dec_str(s.skip(h)).unwrap().1));
    }
}

/// A successful record decode consumes at least one byte, never more than
/// there are.
pub proof fn lemma_dec_table_value_bounds(s: Seq<u8>)
    ensures
        dec_table_value(s) matches Option::Some((m, c)) ==> 1 <= c <= s.len(),
{
    reveal(dec_table_value);
    reveal(crate::msgpack::dec_str_len);
    reveal(crate::msgpack::dec_uint_val);
    if let Option::Some((m, c)) = dec_table_value(s) {
        let h = dec_map_hdr(s).unwrap().1;
        lemma_dec_val_bounds(s.skip(h).skip(dec_str(s.skip(h)).unwrap().1));
    }
}

/// The encodings of a sequence of key/request-side record pairs, one after the other.
pub open spec fn enc_insert_pairs(xs: Seq<(Seq<char>, InsertValueModel)>) -> Seq<u8>
    decreases xs,
{
    if xs.len() == 0 {
        Seq::empty()
    } else {
        enc_str(xs[0].0) + enc_insert_value(xs[0].1) + enc_insert_pairs(xs.subrange(1, xs.len() as int))
    }
}

/// The encoding of a map from key to request-side record.
pub open spec fn enc_insert_map(xs: Seq<(Seq<char>, InsertValueModel)>) -> Seq<u8> {
    enc_map_hdr(xs.len() as u32) + enc_insert_pairs(xs)
}

/// The `n` key/request-side record pairs decoded one after the other at the head of `s`.
pub open spec fn dec_insert_pairs(s: Seq<u8>, n: int) -> Option<(Seq<(Seq<char>, InsertValueModel)>, int)>
    decreases n,
{
    if n <= 0 {
        Option::Some((Seq::empty(), 0))
    } else {
        match dec_str(s) {
            Option::None => Option::None,
            Option::Some((k, c)) => if 1 <= c <= s.len() {
                match dec_insert_value(s.skip(c)) {
                    Option::None => Option::None,
                    Option::Some((v, c2)) => if 1 <= c2 <= s.skip(c).len() {
                        match dec_insert_pairs(s.skip(c).skip(c2), n - 1) {
                            Option::None => Option::None,
                            Option::Some((rs, c3)) => Option::Some(
                                (seq![(k, v)] + rs, c + c2 + c3),
                            ),
                        }
                    } else {
                        Option::None
                    },
                }
            } else {
                Option::None
            },
        }
    }
}

/// The map from key to request-side record decoded at the head of `s`.
#[verifier::opaque]
pub open spec fn dec_insert_map(s: Seq<u8>) -> Option<(Seq<(Seq<char>, InsertValueModel)>, int)> {
    match dec_map_hdr(s) {
        Option::None => Option::None,
        Option::Some((n, h)) => match dec_insert_pairs(s.skip(h), n) {
            Option::None => Option::None,
            Option::Some((xs, c)) => Option::Some((xs, h + c)),
        },
    }
}

/// Decoding inverts encoding on key/request-side record pair sequences.
#[verifier::rlimit(100)]
#[verifier::spinoff_prover]
pub proof fn lemma_dec_enc_insert_pairs(xs: Seq<(Seq<char>, InsertValueModel)>, rest: Seq<u8>)
    requires
        forall|i: int| 0 <= i < xs.len() ==> wf_str(#[trigger] xs[i].0) && wf_insert_value(xs[i].1),
    ensures
        dec_insert_pairs(enc_insert_pairs(xs) + rest, xs.len() as int) == Option::Some(
            (xs, enc_insert_pairs(xs).len() as int),
        ),
    decreases xs.len(),
{
    if xs.len() == 0 {
        assert(enc_insert_pairs(xs) + rest =~= rest);
        assert(Seq::<(Seq<char>, InsertValueModel)>::empty() =~= xs);
    } else {
        let s = enc_insert_pairs(xs) + rest;
        let k0 = xs[0].0;
        let v0 = xs[0].1;
        let tail = xs.subrange(1, xs.len() as int);
        assert(s =~= enc_str(k0) + (enc_insert_value(v0) + (enc_insert_pairs(tail) + rest)));
        lemma_dec_enc_str(k0, enc_insert_value(v0) + (enc_insert_pairs(tail) + rest));
        lemma_unchain(enc_str(k0), enc_insert_value(v0) + (enc_insert_pairs(tail) + rest));
        lemma_dec_enc_insert_value(v0, enc_insert_pairs(tail) + rest);
        lemma_dec_insert_value_bounds(enc_insert_value(v0) + (enc_insert_pairs(tail) + rest));
        lemma_unchain(enc_insert_value(v0), enc_insert_pairs(tail) + rest);
        lemma_dec_enc_insert_pairs(tail, rest);
        assert(seq![(k0, v0)] + tail =~= xs);
    }
}

/// Decoding inverts encoding on key/request-side record maps, whatever bytes follow.
pub proof fn lemma_dec_enc_insert_map(xs: Seq<(Seq<char>, InsertValueModel)>, rest: Seq<u8>)
    requires
        xs.len() < 0x1_0000_0000,
        forall|i: int| 0 <= i < xs.len() ==> wf_str(#[trigger] xs[i].0) && wf_insert_value(xs[i].1),
    ensures
        dec_insert_map(enc_insert_map(xs) + rest) == Option::Some((xs, enc_insert_map(xs).len() as int)),
{
    reveal(dec_insert_map);
    let n32 = xs.len() as u32;
    assert(enc_insert_map(xs) + rest =~= enc_map_hdr(n32) + (enc_insert_pairs(xs) + rest));
    lemma_dec_enc_map_hdr(n32, enc_insert_pairs(xs) + rest);
    lemma_unchain(enc_map_hdr(n32), enc_insert_pairs(xs) + rest);
    lemma_dec_enc_insert_pairs(xs, rest);
}

/// Appending one more key/request-side record pair appends its encoding.
pub proof fn lemma_enc_insert_pairs_snoc(xs: Seq<(Seq<char>, InsertValueModel)>, k: Seq<char>, v: InsertValueModel)
    ensures
        enc_insert_pairs(xs.push((k, v))) == enc_insert_pairs(xs) + enc_str(k) + enc_insert_value(v),
    decreases xs.len(),
{
    if xs.len() == 0 {
        reveal_with_fuel(enc_insert_pairs, 2);
        assert(xs.push((k, v))[0] == (k, v));
        assert(xs.push((k, v)).subrange(1, 1) =~= Seq::<(Seq<char>, InsertValueModel)>::empty());
        assert(enc_insert_pairs(xs.push((k, v))) =~= enc_insert_pairs(xs) + enc_str(k) + enc_insert_value(v));
    } else {
        let ys = xs.push((k, v));
        assert(ys[0] == xs[0]);
        assert(ys.subrange(1, ys.len() as int) =~= xs.subrange(1, xs.len() as int).push((k, v)));
        lemma_enc_insert_pairs_snoc(xs.subrange(1, xs.len() as int), k, v);
        assert(enc_insert_pairs(ys) =~= enc_insert_pairs(xs) + enc_str(k) + enc_insert_value(v));
    }
}

/// Appends the encodings of every key/request-side record pair in `xs`, in order.
#[verifier::rlimit(100)]
#[verifier::spinoff_prover]
pub fn encode_insert_pairs(xs: &Vec<(String, InsertTableValue)>, out: &mut Vec<u8>)
    requires
        forall|i: int| 0 <= i < xs@.len() ==> wf_str(#[trigger] xs@[i].0@) && wf_insert_value(xs@[i].1@),
    ensures
        final(out)@ == old(out)@ + enc_insert_pairs(insert_pairs_model(xs@)),
{
    let mut i: usize = 0;
    while i < xs.len()
        invariant
            i <= xs@.len(),
            forall|j: int| 0 <= j < xs@.len() ==> wf_str(#[trigger] xs@[j].0@) && wf_insert_value(xs@[j].1@),
            out@ == old(out)@ + enc_insert_pairs(insert_pairs_model(xs@.subrange(0, i as int))),
        decreases xs@.len() - i,
    {
        encode_string(xs[i].0.as_str(), out);
        encode_insert_value(&xs[i].1, out);
        proof {
            assert(insert_pairs_model(xs@.subrange(0, i + 1)) =~= insert_pairs_model(
                xs@.subrange(0, i as int),
            ).push((xs@[i as int].0@, xs@[i as int].1@)));
            lemma_enc_insert_pairs_snoc(
                insert_pairs_model(xs@.subrange(0, i as int)),
                xs@[i as int].0@,
                xs@[i as int].1@,
            );
            assert(out@ =~= old(out)@ + enc_insert_pairs(insert_pairs_model(xs@.subrange(0, i + 1))));
        }
        i = i + 1;
    }
    proof {
        assert(xs@.subrange(0, xs@.len() as int) =~= xs@);
    }
}

/// Appends the encoding of a map from key to request-side record.
pub fn encode_insert_map(xs: &Vec<(String, InsertTableValue)>, out: &mut Vec<u8>)
    requires
        xs@.len() < 0x1_0000_0000,
        forall|i: int| 0 <= i < xs@.len() ==> wf_str(#[trigger] xs@[i].0@) && wf_insert_value(xs@[i].1@),
    ensures
        final(out)@ == old(out)@ + enc_insert_map(insert_pairs_model(xs@)),
{
    push_map_hdr(out, xs.len() as u32);
    encode_insert_pairs(xs, out);
    proof {
        assert(out@ =~= old(out)@ + enc_insert_map(insert_pairs_model(xs@)));
    }
}

/// Reads the `n` key/request-side record pairs encoded one after the other at `pos`.
#[verifier::rlimit(100)]
#[verifier::spinoff_prover]
pub fn decode_insert_pairs(s: &Vec<u8>, pos: usize, n: u32) -> (r: Option<
    (Vec<(String, InsertTableValue)>, usize),
>)
    requires
        pos <= s.len(),
    ensures
        match r {
            Option::Some(vc) => {
                &&& dec_insert_pairs(s@.skip(pos as int), n as int) == Option::Some(
                    (insert_pairs_model(vc.0@), vc.1 as int),
                )
                &&& pos + vc.1 <= s.len()
                &&& vc.0@.len() == n
                &&& forall|i: int|
                    0 <= i < vc.0@.len() ==> wf_str(#[trigger] vc.0@[i].0@) && wf_insert_value(vc.0@[i].1@)
            },
            Option::None => dec_insert_pairs(s@.skip(pos as int), n as int) is None,
        },
    decreases n,
{
    let ghost sk = s@.skip(pos as int);
    if n == 0 {
        proof {
            assert(insert_pairs_model(Seq::<(String, InsertTableValue)>::empty()) =~= Seq::<
                (Seq<char>, InsertValueModel),
            >::empty());
        }
        let out: Vec<(String, InsertTableValue)> = Vec::new();
        return Option::Some((out, 0));
    }
    let (k, c) = match decode_string(s, pos) {
        Option::None => {
            return Option::None;
        },
        Option::Some(kc) => kc,
    };
    proof {
        lemma_skip_skip(s@, pos as int, c as int);
    }
    let (v, c2) = match decode_insert_value(s, pos + c) {
        Option::None => {
            return Option::None;
        },
        Option::Some(vc) => vc,
    };
    proof {
        lemma_dec_insert_value_bounds(s@.skip(pos + c));
        lemma_skip_skip(s@, pos + c, c2 as int);
    }
    match decode_insert_pairs(s, pos + c + c2, n - 1) {
        Option::None => Option::None,
        Option::Some((vs, c3)) => {
            let mut out = vs;
            out.insert(0, (k, v));
            proof {
                assert(insert_pairs_model(out@) =~= seq![(out@[0].0@, out@[0].1@)] + insert_pairs_model(
                    out@.subrange(1, out@.len() as int),
                ));
                assert(out@.subrange(1, out@.len() as int) =~= vs@);
                assert(dec_insert_pairs(sk, n as int) == Option::Some(
                    (insert_pairs_model(out@), (c + c2 + c3) as int),
                ));
            }
            Option::Some((out, c + c2 + c3))
        },
    }
}

/// Reads the map from key to request-side record encoded at `pos`.
#[verifier::rlimit(100)]
#[verifier::spinoff_prover]
pub fn decode_insert_map(s: &Vec<u8>, pos: usize) -> (r: Option<(Vec<(String, InsertTableValue)>, usize)>)
    requires
        pos <= s.len(),
    ensures
        r is Some ==> dec_insert_map(s@.skip(pos as int)) == Option::Some(
            (insert_pairs_model(r->Some_0.0@), r->Some_0.1 as int),
        ),
        r is Some ==> pos + r->Some_0.1 <= s.len() && r->Some_0.0@.len() < 0x1_0000_0000,
        r is Some ==> forall|i: int|
            0 <= i < r->Some_0.0@.len() ==> wf_str(#[trigger] r->Some_0.0@[i].0@) && wf_insert_value(
                r->Some_0.0@[i].1@,
            ),
        r is None ==> dec_insert_map(s@.skip(pos as int)) is None,
{
    proof {
        reveal(dec_insert_map);
    }
    let hdr = match read_map_hdr(s, pos) {
        Option::None => {
            return Option::None;
        },
        Option::Some(nc) => nc,
    };
    proof {
        lemma_skip_skip(s@, pos as int, hdr.1 as int);
    }
    match decode_insert_pairs(s, pos + hdr.1, hdr.0) {
        Option::None => Option::None,
        Option::Some((vs, c)) => {
            proof {
                assert(dec_insert_map(s@.skip(pos as int)) == Option::Some(
                    (insert_pairs_model(vs@), (hdr.1 + c) as int),
                ));
            }
            Option::Some((vs, hdr.1 + c))
        },
    }
}

/// The encodings of a sequence of key/stored record pairs, one after the other.
pub open spec fn enc_table_pairs(xs: Seq<(Seq<char>, TableValueModel)>) -> Seq<u8>
    decreases xs,
{
    if xs.len() == 0 {
        Seq::empty()
    } else {
        enc_str(xs[0].0) + enc_table_value(xs[0].1) + enc_table_pairs(xs.subrange(1, xs.len() as int))
    }
}

/// The encoding of a map from key to stored record.
pub open spec fn enc_table_map(xs: Seq<(Seq<char>, TableValueModel)>) -> Seq<u8> {
    enc_map_hdr(xs.len() as u32) + enc_table_pairs(xs)
}

/// The `n` key/stored record pairs decoded one after the other at the head of `s`.
pub open spec fn dec_table_pairs(s: Seq<u8>, n: int) -> Option<(Seq<(Seq<char>, TableValueModel)>, int)>
    decreases n,
{
    if n <= 0 {
        Option::Some((Seq::empty(), 0))
    } else {
        match dec_str(s) {
            Option::None => Option::None,
            Option::Some((k, c)) => if 1 <= c <= s.len() {
                match dec_table_value(s.skip(c)) {
                    Option::None => Option::None,
                    Option::Some((v, c2)) => if 1 <= c2 <= s.skip(c).len() {
                        match dec_table_pairs(s.skip(c).skip(c2), n - 1) {
                            Option::None => Option::None,
                            Option::Some((rs, c3)) => Option::Some(
                                (seq![(k, v)] + rs, c + c2 + c3),
                            ),
                        }
                    } else {
                        Option::None
                    },
                }
            } else {
                Option::None
            },
        }
    }
}

/// The map from key to stored record decoded at the head of `s`.
#[verifier::opaque]
pub open spec fn dec_table_map(s: Seq<u8>) -> Option<(Seq<(Seq<char>, TableValueModel)>, int)> {
    match dec_map_hdr(s) {
        Option::None => Option::None,
        Option::Some((n, h)) => match dec_table_pairs(s.skip(h), n) {
            Option::None => Option::None,
            Option::Some((xs, c)) => Option::Some((xs, h + c)),
        },
    }
}

/// Decoding inverts encoding on key/stored record pair sequences.
#[verifier::rlimit(100)]
#[verifier::spinoff_prover]
pub proof fn lemma_dec_enc_table_pairs(xs: Seq<(Seq<char>, TableValueModel)>, rest: Seq<u8>)
    requires
        forall|i: int| 0 <= i < xs.len() ==> wf_str(#[trigger] xs[i].0) && wf_table_value(xs[i].1),
    ensures
        dec_table_pairs(enc_table_pairs(xs) + rest, xs.len() as int) == Option::Some(
            (xs, enc_table_pairs(xs).len() as int),
        ),
    decreases xs.len(),
{
    if xs.len() == 0 {
        assert(enc_table_pairs(xs) + rest =~= rest);
        assert(Seq::<(Seq<char>, TableValueModel)>::empty() =~= xs);
    } else {
        let s = enc_table_pairs(xs) + rest;
        let k0 = xs[0].0;
        let v0 = xs[0].1;
        let tail = xs.subrange(1, xs.len() as int);
        assert(s =~= enc_str(k0) + (enc_table_value(v0) + (enc_table_pairs(tail) + rest)));
        lemma_dec_enc_str(k0, enc_table_value(v0) + (enc_table_pairs(tail) + rest));
        lemma_unchain(enc_str(k0), enc_table_value(v0) + (enc_table_pairs(tail) + rest));
        lemma_dec_enc_table_value(v0, enc_table_pairs(tail) + rest);
        lemma_dec_table_value_bounds(enc_table_value(v0) + (enc_table_pairs(tail) + rest));
        lemma_unchain(enc_table_value(v0), enc_table_pairs(tail) + rest);
        lemma_dec_enc_table_pairs(tail, rest);
        assert(seq![(k0, v0)] + tail =~= xs);
    }
}

/// Decoding inverts encoding on key/stored record maps, whatever bytes follow.
pub proof fn lemma_dec_enc_table_map(xs: Seq<(Seq<char>, TableValueModel)>, rest: Seq<u8>)
    requires
        xs.len() < 0x1_0000_0000,
        forall|i: int| 0 <= i < xs.len() ==> wf_str(#[trigger] xs[i].0) && wf_table_value(xs[i].1),
    ensures
        dec_table_map(enc_table_map(xs) + rest) == Option::Some((xs, enc_table_map(xs).len() as int)),
{
    reveal(dec_table_map);
    let n32 = xs.len() as u32;
    assert(enc_table_map(xs) + rest =~= enc_map_hdr(n32) + (enc_table_pairs(xs) + rest));
    lemma_dec_enc_map_hdr(n32, enc_table_pairs(xs) + rest);
    lemma_unchain(enc_map_hdr(n32), enc_table_pairs(xs) + rest);
    lemma_dec_enc_table_pairs(xs, rest);
}

/// Appending one more key/stored record pair appends its encoding.
pub proof fn lemma_enc_table_pairs_snoc(xs: Seq<(Seq<char>, TableValueModel)>, k: Seq<char>, v: TableValueModel)
    ensures
        enc_table_pairs(xs.push((k, v))) == enc_table_pairs(xs) + enc_str(k) + enc_table_value(v),
    decreases xs.len(),
{
    if xs.len() == 0 {
        reveal_with_fuel(enc_table_pairs, 2);
        assert(xs.push((k, v))[0] == (k, v));
        assert(xs.push((k, v)).subrange(1, 1) =~= Seq::<(Seq<char>, TableValueModel)>::empty());
        assert(enc_table_pairs(xs.push((k, v))) =~= enc_table_pairs(xs) + enc_str(k) + enc_table_value(v));
    } else {
        let ys = xs.push((k, v));
        assert(ys[0] == xs[0]);
        assert(ys.subrange(1, ys.len() as int) =~= xs.subrange(1, xs.len() as int).push((k, v)));
        lemma_enc_table_pairs_snoc(xs.subrange(1, xs.len() as int), k, v);
        assert(enc_table_pairs(ys) =~= enc_table_pairs(xs) + enc_str(k) + enc_table_value(v));
    }
}

/// Appends the encodings of every key/stored record pair in `xs`, in order.
#[verifier::rlimit(100)]
#[verifier::spinoff_prover]
pub fn encode_table_pairs(xs: &Vec<(String, TableValue)>, out: &mut Vec<u8>)
    requires
        forall|i: int| 0 <= i < xs@.len() ==> wf_str(#[trigger] xs@[i].0@) && wf_table_value(xs@[i].1@),
    ensures
        final(out)@ == old(out)@ + enc_table_pairs(table_pairs_model(xs@)),
{
    let mut i: usize = 0;
    while i < xs.len()
        invariant
            i <= xs@.len(),
            forall|j: int| 0 <= j < xs@.len() ==> wf_str(#[trigger] xs@[j].0@) && wf_table_value(xs@[j].1@),
            out@ == old(out)@ + enc_table_pairs(table_pairs_model(xs@.subrange(0, i as int))),
        decreases xs@.len() - i,
    {
        encode_string(xs[i].0.as_str(), out);
        encode_table_value(&xs[i].1, out);
        proof {
            assert(table_pairs_model(xs@.subrange(0, i + 1)) =~= table_pairs_model(
                xs@.subrange(0, i as int),
            ).push((xs@[i as int].0@, xs@[i as int].1@)));
            lemma_enc_table_pairs_snoc(
                table_pairs_model(xs@.subrange(0, i as int)),
                xs@[i as int].0@,
                xs@[i as int].1@,
            );
            assert(out@ =~= old(out)@ + enc_table_pairs(table_pairs_model(xs@.subrange(0, i + 1))));
        }
        i = i + 1;
    }
    proof {
        assert(xs@.subrange(0, xs@.len() as int) =~= xs@);
    }
}

/// Appends the encoding of a map from key to stored record.
pub fn encode_table_map(xs: &Vec<(String, TableValue)>, out: &mut Vec<u8>)
    requires
        xs@.len() < 0x1_0000_0000,
        forall|i: int| 0 <= i < xs@.len() ==> wf_str(#[trigger] xs@[i].0@) && wf_table_value(xs@[i].1@),
    ensures
        final(out)@ == old(out)@ + enc_table_map(table_pairs_model(xs@)),
{
    push_map_hdr(out, xs.len() as u32);
    encode_table_pairs(xs, out);
    proof {
        assert(out@ =~= old(out)@ + enc_table_map(table_pairs_model(xs@)));
    }
}

/// Reads the `n` key/stored record pairs encoded one after the other at `pos`.
#[verifier::rlimit(100)]
#[verifier::spinoff_prover]
pub fn decode_table_pairs(s: &Vec<u8>, pos: usize, n: u32) -> (r: Option<
    (Vec<(String, TableValue)>, usize),
>)
    requires
        pos <= s.len(),
    ensures
        match r {
            Option::Some(vc) => {
                &&& dec_table_pairs(s@.skip(pos as int), n as int) == Option::Some(
                    (table_pairs_model(vc.0@), vc.1 as int),
                )
                &&& pos + vc.1 <= s.len()
                &&& vc.0@.len() == n
                &&& forall|i: int|
                    0 <= i < vc.0@.len() ==> wf_str(#[trigger] vc.0@[i].0@) && wf_table_value(vc.0@[i].1@)
            },
            Option::None => dec_table_pairs(s@.skip(pos as int), n as int) is None,
        },
    decreases n,
{
    let ghost sk = s@.skip(pos as int);
    if n == 0 {
        proof {
            assert(table_pairs_model(Seq::<(String, TableValue)>::empty()) =~= Seq::<
                (Seq<char>, TableValueModel),
            >::empty());
        }
        let out: Vec<(String, TableValue)> = Vec::new();
        return Option::Some((out, 0));
    }
    let (k, c) = match decode_string(s, pos) {
        Option::None => {
            return Option::None;
        },
        Option::Some(kc) => kc,
    };
    proof {
        lemma_skip_skip(s@, pos as int, c as int);
    }
    let (v, c2) = match decode_table_value(s, pos + c) {
        Option::None => {
            return Option::None;
        },
        Option::Some(vc) => vc,
    };
    proof {
        lemma_dec_table_value_bounds(s@.skip(pos + c));
        lemma_skip_skip(s@, pos + c, c2 as int);
    }
    match decode_table_pairs(s, pos + c + c2, n - 1) {
        Option::None => Option::None,
        Option::Some((vs, c3)) => {
            let mut out = vs;
            out.insert(0, (k, v));
            proof {
                assert(table_pairs_model(out@) =~= seq![(out@[0].0@, out@[0].1@)] + table_pairs_model(
                    out@.subrange(1, out@.len() as int),
                ));
                assert(out@.subrange(1, out@.len() as int) =~= vs@);
                assert(dec_table_pairs(sk, n as int) == Option::Some(
                    (table_pairs_model(out@), (c + c2 + c3) as int),
                ));
            }
            Option::Some((out, c + c2 + c3))
        },
    }
}

/// Reads the map from key to stored record encoded at `pos`.
#[verifier::rlimit(100)]
#[verifier::spinoff_prover]
pub fn decode_table_map(s: &Vec<u8>, pos: usize) -> (r: Option<(Vec<(String, TableValue)>, usize)>)
    requires
        pos <= s.len(),
    ensures
        r is Some ==> dec_table_map(s@.skip(pos as int)) == Option::Some(
            (table_pairs_model(r->Some_0.0@), r->Some_0.1 as int),
        ),
        r is Some ==> pos + r->Some_0.1 <= s.len() && r->Some_0.0@.len() < 0x1_0000_0000,
        r is Some ==> forall|i: int|
            0 <= i < r->Some_0.0@.len() ==> wf_str(#[trigger] r->Some_0.0@[i].0@) && wf_table_value(
                r->Some_0.0@[i].1@,
            ),
        r is None ==> dec_table_map(s@.skip(pos as int)) is None,
{
    proof {
        reveal(dec_table_map);
    }
    let hdr = match read_map_hdr(s, pos) {
        Option::None => {
            return Option::None;
        },
        Option::Some(nc) => nc,
    };
    proof {
        lemma_skip_skip(s@, pos as int, hdr.1 as int);
    }
    match decode_table_pairs(s, pos + hdr.1, hdr.0) {
        Option::None => Option::None,
        Option::Some((vs, c)) => {
            proof {
                assert(dec_table_map(s@.skip(pos as int)) == Option::Some(
                    (table_pairs_model(vs@), (hdr.1 + c) as int),
                ));
            }
            Option::Some((vs, hdr.1 + c))
        },
    }
}



/// A successful pair-sequence decode consumes no more bytes than there are.
pub proof fn lemma_dec_table_pairs_bounds(s: Seq<u8>, n: int)
    ensures
        dec_table_pairs(s, n) matches Option::Some((ps, c)) ==> 0 <= c <= s.len(),
    decreases n,
{
    reveal(crate::msgpack::dec_str_len);
    if n > 0 {
        if let Option::Some((k, c)) = dec_str(s) {
            if 1 <= c <= s.len() {
                if let Option::Some((v, c2)) = dec_table_value(s.skip(c)) {
                    if 1 <= c2 <= s.skip(c).len() {
                        lemma_dec_table_pairs_bounds(s.skip(c).skip(c2), n - 1);
                    }
                }
            }
        }
    }
}

/// A successful whole-map decode consumes at least one byte, never more than
/// there are.
pub proof fn lemma_dec_table_map_bounds(s: Seq<u8>)
    ensures
        dec_table_map(s) matches Option::Some((ps, c)) ==> 1 <= c <= s.len(),
{
    reveal(dec_table_map);
    if let Option::Some((n, h)) = dec_map_hdr(s) {
        lemma_dec_table_pairs_bounds(s.skip(h), n);
    }
}

/// The named string field decoded at the head of `s`: the key must match.
pub open spec fn dec_field_str(s: Seq<u8>, key: Seq<char>) -> Option<(Seq<char>, int)> {
    match dec_str(s) {
        Option::None => Option::None,
        Option::Some((k, c)) => if k != key {
            Option::None
        } else {
            match dec_str(s.skip(c)) {
                Option::None => Option::None,
                Option::Some((v, c2)) => Option::Some((v, c + c2)),
            }
        },
    }
}

/// The named unsigned field decoded at the head of `s`: the key must match.
pub open spec fn dec_field_uint(s: Seq<u8>, key: Seq<char>) -> Option<(u64, int)> {
    match dec_str(s) {
        Option::None => Option::None,
        Option::Some((k, c)) => if k != key {
            Option::None
        } else {
            match dec_uint(s.skip(c)) {
                Option::None => Option::None,
                Option::Some((v, c2)) => Option::Some((v, c + c2)),
            }
        },
    }
}

/// The named value field decoded at the head of `s`: the key must match.
pub open spec fn dec_field_val(s: Seq<u8>, key: Seq<char>) -> Option<(crate::value::ValueModel, int)> {
    match dec_str(s) {
        Option::None => Option::None,
        Option::Some((k, c)) => if k != key {
            Option::None
        } else {
            match dec_val(s.skip(c)) {
                Option::None => Option::None,
                Option::Some((v, c2)) => Option::Some((v, c + c2)),
            }
        },
    }
}

/// Decoding inverts encoding on named string fields.
pub proof fn lemma_dec_enc_field_str(key: Seq<char>, v: Seq<char>, rest: Seq<u8>)
    requires
        wf_str(key),
        wf_str(v),
    ensures
        dec_field_str(enc_str(key) + (enc_str(v) + rest), key) == Option::Some(
            (v, (enc_str(key).len() + enc_str(v).len()) as int),
        ),
        (enc_str(key) + (enc_str(v) + rest)).skip(enc_str(key).len() + enc_str(v).len() as int) =~= rest,
{
    lemma_dec_enc_str(key, enc_str(v) + rest);
    lemma_unchain(enc_str(key), enc_str(v) + rest);
    lemma_dec_enc_str(v, rest);
    lemma_unchain(enc_str(v), rest);
    lemma_skip_skip(
        enc_str(key) + (enc_str(v) + rest),
        enc_str(key).len() as int,
        enc_str(v).len() as int,
    );
}

/// Decoding inverts encoding on named unsigned fields.
pub proof fn lemma_dec_enc_field_uint(key: Seq<char>, v: u64, rest: Seq<u8>)
    requires
        wf_str(key),
    ensures
        dec_field_uint(enc_str(key) + (enc_uint(v) + rest), key) == Option::Some(
            (v, (enc_str(key).len() + 9) as int),
        ),
        (enc_str(key) + (enc_uint(v) + rest)).skip(enc_str(key).len() + 9int) =~= rest,
{
    lemma_dec_enc_str(key, enc_uint(v) + rest);
    lemma_unchain(enc_str(key), enc_uint(v) + rest);
    lemma_dec_enc_uint(v, rest);
    lemma_unchain(enc_uint(v), rest);
    lemma_skip_skip(enc_str(key) + (enc_uint(v) + rest), enc_str(key).len() as int, 9);
}

/// Decoding inverts encoding on named value fields.
pub proof fn lemma_dec_enc_field_val(key: Seq<char>, v: crate::value::ValueModel, rest: Seq<u8>)
    requires
        wf_str(key),
        wf_model(v),
    ensures
        dec_field_val(enc_str(key) + (enc_val(v) + rest), key) == Option::Some(
            (v, (enc_str(key).len() + enc_val(v).len()) as int),
        ),
        (enc_str(key) + (enc_val(v) + rest)).skip(enc_str(key).len() + enc_val(v).len() as int) =~= rest,
{
    lemma_dec_enc_str(key, enc_val(v) + rest);
    lemma_unchain(enc_str(key), enc_val(v) + rest);
    lemma_dec_enc_val(v, rest);
    lemma_unchain(enc_val(v), rest);
    lemma_skip_skip(
        enc_str(key) + (enc_val(v) + rest),
        enc_str(key).len() as int,
        enc_val(v).len() as int,
    );
}

/// Reads the named string field at `pos`; the key must match `key` exactly.
pub fn decode_field_str(s: &Vec<u8>, pos: usize, key: &str) -> (r: Option<(String, usize)>)
    requires
        pos <= s.len(),
    ensures
        match r {
            Option::Some(vc) => {
                &&& dec_field_str(s@.skip(pos as int), key@) == Option::Some((vc.0@, vc.1 as int))
                &&& pos + vc.1 <= s.len()
                &&& wf_str(vc.0@)
            },
            Option::None => dec_field_str(s@.skip(pos as int), key@) is None,
        },
{
    let (k, c) = match decode_string(s, pos) {
        Option::None => {
            return Option::None;
        },
        Option::Some(kc) => kc,
    };
    if !str_eq(k.as_str(), key) {
        return Option::None;
    }
    proof {
        lemma_skip_skip(s@, pos as int, c as int);
    }
    match decode_string(s, pos + c) {
        Option::None => Option::None,
        Option::Some((v, c2)) => Option::Some((v, c + c2)),
    }
}

/// Reads the named unsigned field at `pos`; the key must match `key` exactly.
pub fn decode_field_uint(s: &Vec<u8>, pos: usize, key: &str) -> (r: Option<(u64, usize)>)
    requires
        pos <= s.len(),
    ensures
        match r {
            Option::Some(vc) => {
                &&& dec_field_uint(s@.skip(pos as int), key@) == Option::Some((vc.0, vc.1 as int))
                &&& pos + vc.1 <= s.len()
            },
            Option::None => dec_field_uint(s@.skip(pos as int), key@) is None,
        },
{
    let (k, c) = match decode_string(s, pos) {
        Option::None => {
            return Option::None;
        },
        Option::Some(kc) => kc,
    };
    if !str_eq(k.as_str(), key) {
        return Option::None;
    }
    proof {
        lemma_skip_skip(s@, pos as int, c as int);
    }
    match read_uint(s, pos + c) {
        Option::None => Option::None,
        Option::Some((v, c2)) => Option::Some((v, c + c2)),
    }
}

/// Reads the named value field at `pos`; the key must match `key` exactly.
pub fn decode_field_val(s: &Vec<u8>, pos: usize, key: &str) -> (r: Option<
    (crate::value::PrimitiveValue, usize),
>)
    requires
        pos <= s.len(),
    ensures
        match r {
            Option::Some(vc) => {
                &&& dec_field_val(s@.skip(pos as int), key@) == Option::Some((vc.0@, vc.1 as int))
                &&& pos + vc.1 <= s.len()
                &&& wf_model(vc.0@)
            },
            Option::None => dec_field_val(s@.skip(pos as int), key@) is None,
        },
{
    let (k, c) = match decode_string(s, pos) {
        Option::None => {
            return Option::None;
        },
        Option::Some(kc) => kc,
    };
    if !str_eq(k.as_str(), key) {
        return Option::None;
    }
    proof {
        lemma_skip_skip(s@, pos as int, c as int);
    }
    match decode_value(s, pos + c) {
        Option::None => Option::None,
        Option::Some((v, c2)) => Option::Some((v, c + c2)),
    }
}


/// A body that holds one `table` field and nothing more.
#[verifier::opaque]
pub open spec fn dec_req_table_only(s: Seq<u8>, n: int) -> Option<Seq<char>> {
    if n != 2 {
        Option::None
    } else {
        match dec_field_str(s, "table"@) {
            Option::None => Option::None,
            Option::Some((t, c)) => if s.skip(c).len() == 0 {
                Option::Some(t)
            } else {
                Option::None
            },
        }
    }
}

/// A body that holds a `table` and a `key` field and nothing more.
#[verifier::opaque]
pub open spec fn dec_req_table_key(s: Seq<u8>, n: int) -> Option<(Seq<char>, Seq<char>)> {
    if n != 3 {
        Option::None
    } else {
        match dec_field_str(s, "table"@) {
            Option::None => Option::None,
            Option::Some((t, c)) => match dec_field_str(s.skip(c), "key"@) {
                Option::None => Option::None,
                Option::Some((k, c2)) => if s.skip(c).skip(c2).len() == 0 {
                    Option::Some((t, k))
                } else {
                    Option::None
                },
            },
        }
    }
}

/// The body of an authentication request: a username and a password.
#[verifier::opaque]
pub open spec fn dec_req_auth(s: Seq<u8>, n: int) -> Option<RequestModel> {
    if n != 3 {
        Option::None
    } else {
        match dec_field_str(s, "username"@) {
            Option::None => Option::None,
            Option::Some((u, c)) => match dec_field_str(s.skip(c), "password"@) {
                Option::None => Option::None,
                Option::Some((pw, c2)) => if s.skip(c).skip(c2).len() == 0 {
                    Option::Some(RequestModel::Auth { username: u, password: pw })
                } else {
                    Option::None
                },
            },
        }
    }
}

/// The body of a table creation: its name and, optionally, its contents.
#[verifier::opaque]
pub open spec fn dec_req_insert_table(s: Seq<u8>, n: int) -> Option<RequestModel> {
    match dec_field_str(s, "table"@) {
        Option::None => Option::None,
        Option::Some((t, c)) => if n == 2 {
            if s.skip(c).len() == 0 {
                Option::Some(RequestModel::InsertTable { table: t, contents: Option::None })
            } else {
                Option::None
            }
        } else if n == 3 {
            match dec_str(s.skip(c)) {
                Option::None => Option::None,
                Option::Some((k, c2)) => if k != "contents"@ {
                    Option::None
                } else {
                    match dec_insert_map(s.skip(c).skip(c2)) {
                        Option::None => Option::None,
                        Option::Some((cs, c3)) => if s.skip(c).skip(c2).skip(c3).len() == 0
                            && cs.len() < 0xffff_fffe {
                            Option::Some(
                                RequestModel::InsertTable { table: t, contents: Option::Some(cs) },
                            )
                        } else {
                            Option::None
                        },
                    }
                },
            }
        } else {
            Option::None
        },
    }
}

/// The body of a key insertion: table, key, value and optional lifetime.
#[verifier::opaque]
pub open spec fn dec_req_insert(s: Seq<u8>, n: int) -> Option<RequestModel> {
    if n != 4 && n != 5 {
        Option::None
    } else {
        match dec_field_str(s, "table"@) {
            Option::None => Option::None,
            Option::Some((t, c)) => match dec_field_str(s.skip(c), "key"@) {
                Option::None => Option::None,
                Option::Some((k, c2)) => match dec_field_val(s.skip(c).skip(c2), "value"@) {
                    Option::None => Option::None,
                    Option::Some((v, c3)) => if n == 4 {
                        if s.skip(c).skip(c2).skip(c3).len() == 0 {
                            Option::Some(
                                RequestModel::Insert {
                                    table: t,
                                    key: k,
                                    value: InsertValueModel { value: v, lifetime: Option::None },
                                },
                            )
                        } else {
                            Option::None
                        }
                    } else {
                        match dec_field_uint(s.skip(c).skip(c2).skip(c3), "lifetime"@) {
                            Option::None => Option::None,
                            Option::Some((l, c4)) => if s.skip(c).skip(c2).skip(c3).skip(
                                c4,
                            ).len() == 0 {
                                Option::Some(
                                    RequestModel::Insert {
                                        table: t,
                                        key: k,
                                        value: InsertValueModel {
                                            value: v,
                                            lifetime: Option::Some(l),
                                        },
                                    },
                                )
                            } else {
                                Option::None
                            },
                        }
                    },
                },
            },
        }
    }
}

/// The fields that follow the action, read by the action's schema.
pub open spec fn dec_request_body(s: Seq<u8>, n: int, act: Seq<char>) -> Option<RequestModel> {
    if act == "PING"@ {
        if n == 1 && s.len() == 0 {
            Option::Some(RequestModel::Ping)
        } else {
            Option::None
        }
    } else if act == "AUTH"@ {
        dec_req_auth(s, n)
    } else if act == "LIST TABLE"@ {
        if n == 1 && s.len() == 0 {
            Option::Some(RequestModel::ListTables)
        } else {
            Option::None
        }
    } else if act == "INSERT TABLE"@ {
        dec_req_insert_table(s, n)
    } else if act == "GET TABLE"@ {
        match dec_req_table_only(s, n) {
            Option::None => Option::None,
            Option::Some(t) => Option::Some(RequestModel::GetTable { table: t }),
        }
    } else if act == "DELETE TABLE"@ {
        match dec_req_table_only(s, n) {
            Option::None => Option::None,
            Option::Some(t) => Option::Some(RequestModel::DeleteTable { table: t }),
        }
    } else if act == "LIST"@ {
        match dec_req_table_only(s, n) {
            Option::None => Option::None,
            Option::Some(t) => Option::Some(RequestModel::List { table: t }),
        }
    } else if act == "GET"@ {
        match dec_req_table_key(s, n) {
            Option::None => Option::None,
            Option::Some(tk) => Option::Some(RequestModel::Get { table: tk.0, key: tk.1 }),
        }
    } else if act == "DELETE"@ {
        match dec_req_table_key(s, n) {
            Option::None => Option::None,
            Option::Some(tk) => Option::Some(RequestModel::Delete { table: tk.0, key: tk.1 }),
        }
    } else if act == "INSERT"@ {
        dec_req_insert(s, n)
    } else {
        Option::None
    }
}

/// The request decoded from the whole of `s`: trailing bytes are refused.
#[verifier::opaque]
pub open spec fn dec_request(s: Seq<u8>) -> Option<RequestModel> {
    match dec_map_hdr(s) {
        Option::None => Option::None,
        Option::Some((n, h)) => match dec_field_str(s.skip(h), "action"@) {
            Option::None => Option::None,
            Option::Some((act, c)) => dec_request_body(s.skip(h).skip(c), n, act),
        },
    }
}

/// The encoding of a request: a map tagged by its action field.
#[verifier::opaque]
pub open spec fn enc_request(m: RequestModel) -> Seq<u8> {
    let act = enc_str("action"@);
    match m {
        RequestModel::Ping => enc_map_hdr(1) + (act + enc_str("PING"@)),
        RequestModel::Auth { username, password } => enc_map_hdr(3) + (act + (enc_str("AUTH"@) + (
        enc_str("username"@) + (enc_str(username) + (enc_str("password"@) + enc_str(password)))))),
        RequestModel::ListTables => enc_map_hdr(1) + (act + enc_str("LIST TABLE"@)),
        RequestModel::InsertTable { table, contents } => match contents {
            Option::None => enc_map_hdr(2) + (act + (enc_str("INSERT TABLE"@) + (enc_str("table"@)
                + enc_str(table)))),
            Option::Some(cs) => enc_map_hdr(3) + (act + (enc_str("INSERT TABLE"@) + (enc_str(
                "table"@,
            ) + (enc_str(table) + (enc_str("contents"@) + enc_insert_map(cs)))))),
        },
        RequestModel::GetTable { table } => enc_map_hdr(2) + (act + (enc_str("GET TABLE"@) + (
        enc_str("table"@) + enc_str(table)))),
        RequestModel::DeleteTable { table } => enc_map_hdr(2) + (act + (enc_str("DELETE TABLE"@) + (
        enc_str("table"@) + enc_str(table)))),
        RequestModel::List { table } => enc_map_hdr(2) + (act + (enc_str("LIST"@) + (enc_str(
            "table"@,
        ) + enc_str(table)))),
        RequestModel::Get { table, key } => enc_map_hdr(3) + (act + (enc_str("GET"@) + (enc_str(
            "table"@,
        ) + (enc_str(table) + (enc_str("key"@) + enc_str(key)))))),
        RequestModel::Delete { table, key } => enc_map_hdr(3) + (act + (enc_str("DELETE"@) + (
        enc_str("table"@) + (enc_str(table) + (enc_str("key"@) + enc_str(key)))))),
        RequestModel::Insert { table, key, value } => match value.lifetime {
            Option::None => enc_map_hdr(4) + (act + (enc_str("INSERT"@) + (enc_str("table"@) + (
            enc_str(table) + (enc_str("key"@) + (enc_str(key) + (enc_str("value"@) + enc_val(
                value.value,
            )))))))),
            Option::Some(l) => enc_map_hdr(5) + (act + (enc_str("INSERT"@) + (enc_str("table"@) + (
            enc_str(table) + (enc_str("key"@) + (enc_str(key) + (enc_str("value"@) + (enc_val(
                value.value,
            ) + (enc_str("lifetime"@) + enc_uint(l)))))))))),
        },
    }
}


/// An `INSERT TABLE` body is read by the table-creation schema.
proof fn lemma_body_insert_table(s: Seq<u8>, n: int)
    ensures
        dec_request_body(s, n, "INSERT TABLE"@) == dec_req_insert_table(s, n),
{
    reveal_strlit("PING");
    reveal_strlit("AUTH");
    reveal_strlit("LIST TABLE");
    reveal_strlit("INSERT TABLE");
    assert("PING"@.len() == 4);
    assert("AUTH"@.len() == 4);
    assert("LIST TABLE"@.len() == 10);
    assert("INSERT TABLE"@.len() == 12);
}

/// An `INSERT` body is read by the key-insertion schema.
proof fn lemma_body_insert(s: Seq<u8>, n: int)
    ensures
        dec_request_body(s, n, "INSERT"@) == dec_req_insert(s, n),
{
    reveal_strlit("PING");
    reveal_strlit("AUTH");
    reveal_strlit("LIST TABLE");
    reveal_strlit("INSERT TABLE");
    reveal_strlit("GET TABLE");
    reveal_strlit("DELETE TABLE");
    reveal_strlit("LIST");
    reveal_strlit("GET");
    reveal_strlit("DELETE");
    reveal_strlit("INSERT");
    assert("PING"@.len() == 4);
    assert("AUTH"@.len() == 4);
    assert("LIST TABLE"@.len() == 10);
    assert("INSERT TABLE"@.len() == 12);
    assert("GET TABLE"@.len() == 9);
    assert("DELETE TABLE"@.len() == 12);
    assert("LIST"@.len() == 4);
    assert("GET"@.len() == 3);
    assert("DELETE"@.len() == 6);
    assert("INSERT"@.len() == 6);
    assert("DELETE"@[0] == 'D' && "INSERT"@[0] == 'I');
}

/// Decoding inverts encoding on ping requests.
#[verifier::rlimit(100)]
#[verifier::spinoff_prover]
proof fn lemma_rt_ping(m: RequestModel)
    requires
        wf_request(m),
        m is Ping,
    ensures
        dec_request(enc_request(m)) == Option::Some(m),
{
    reveal(enc_request);
    reveal(dec_request);
    reveal_strlit("PING");
    reveal_strlit("action");
    assert(is_ascii_chars("PING"@));
    lemma_ascii_wf("PING"@);
    assert(is_ascii_chars("action"@));
    lemma_ascii_wf("action"@);
    let s = enc_request(m);
    let e = Seq::<u8>::empty();
    assert(enc_str("PING"@) + e =~= enc_str("PING"@));
    lemma_dec_enc_field_str("action"@, "PING"@, e);
    lemma_dec_enc_map_hdr(1, (enc_str("action"@) + enc_str("PING"@)));
    lemma_unchain(enc_map_hdr(1), (enc_str("action"@) + enc_str("PING"@)));
}

/// Decoding inverts encoding on table-listing requests.
#[verifier::rlimit(100)]
#[verifier::spinoff_prover]
proof fn lemma_rt_list_tables(m: RequestModel)
    requires
        wf_request(m),
        m is ListTables,
    ensures
        dec_request(enc_request(m)) == Option::Some(m),
{
    reveal(enc_request);
    reveal(dec_request);
    reveal_strlit("AUTH");
    reveal_strlit("LIST TABLE");
    reveal_strlit("PING");
    reveal_strlit("action");
    assert(is_ascii_chars("LIST TABLE"@));
    lemma_ascii_wf("LIST TABLE"@);
    assert(is_ascii_chars("action"@));
    lemma_ascii_wf("action"@);
    let s = enc_request(m);
    let e = Seq::<u8>::empty();
    assert(enc_str("LIST TABLE"@) + e =~= enc_str("LIST TABLE"@));
    lemma_dec_enc_field_str("action"@, "LIST TABLE"@, e);
    lemma_dec_enc_map_hdr(1, (enc_str("action"@) + enc_str("LIST TABLE"@)));
    lemma_unchain(enc_map_hdr(1), (enc_str("action"@) + enc_str("LIST TABLE"@)));
}

/// Decoding inverts encoding on authentication requests.
#[verifier::rlimit(100)]
#[verifier::spinoff_prover]
proof fn lemma_rt_auth(m: RequestModel)
    requires
        wf_request(m),
        m is Auth,
    ensures
        dec_request(enc_request(m)) == Option::Some(m),
{
    reveal(enc_request);
    reveal(dec_request);
    reveal(dec_req_auth);
    reveal_strlit("AUTH");
    reveal_strlit("PING");
    reveal_strlit("action");
    reveal_strlit("password");
    reveal_strlit("username");
    assert(is_ascii_chars("AUTH"@));
    lemma_ascii_wf("AUTH"@);
    assert(is_ascii_chars("action"@));
    lemma_ascii_wf("action"@);
    assert(is_ascii_chars("password"@));
    lemma_ascii_wf("password"@);
    assert(is_ascii_chars("username"@));
    lemma_ascii_wf("username"@);
    let u = m->Auth_username;
    let pw = m->Auth_password;
    let s = enc_request(m);
    let e = Seq::<u8>::empty();
    assert(enc_str(pw) + e =~= enc_str(pw));
    lemma_dec_enc_field_str("action"@, "AUTH"@, (enc_str("username"@) + (enc_str(u) + (enc_str("password"@) + enc_str(pw)))));
    lemma_dec_enc_field_str("username"@, u, (enc_str("password"@) + enc_str(pw)));
    lemma_dec_enc_field_str("password"@, pw, e);
    lemma_dec_enc_map_hdr(3, (enc_str("action"@) + (enc_str("AUTH"@) + (enc_str("username"@) + (enc_str(u) + (enc_str("password"@) + enc_str(pw)))))));
    lemma_unchain(enc_map_hdr(3), (enc_str("action"@) + (enc_str("AUTH"@) + (enc_str("username"@) + (enc_str(u) + (enc_str("password"@) + enc_str(pw)))))));
}

/// Decoding inverts encoding on whole-table reads.
#[verifier::rlimit(100)]
#[verifier::spinoff_prover]
proof fn lemma_rt_get_table(m: RequestModel)
    requires
        wf_request(m),
        m is GetTable,
    ensures
        dec_request(enc_request(m)) == Option::Some(m),
{
    reveal(enc_request);
    reveal(dec_request);
    reveal(dec_req_table_only);
    reveal_strlit("AUTH");
    reveal_strlit("GET TABLE");
    reveal_strlit("INSERT TABLE");
    reveal_strlit("LIST TABLE");
    reveal_strlit("PING");
    reveal_strlit("action");
    reveal_strlit("table");
    assert(is_ascii_chars("GET TABLE"@));
    lemma_ascii_wf("GET TABLE"@);
    assert(is_ascii_chars("action"@));
    lemma_ascii_wf("action"@);
    assert(is_ascii_chars("table"@));
    lemma_ascii_wf("table"@);
    let t = m->GetTable_table;
    let s = enc_request(m);
    let e = Seq::<u8>::empty();
    assert(enc_str(t) + e =~= enc_str(t));
    lemma_dec_enc_field_str("action"@, "GET TABLE"@, (enc_str("table"@) + enc_str(t)));
    lemma_dec_enc_field_str("table"@, t, e);
    lemma_dec_enc_map_hdr(2, (enc_str("action"@) + (enc_str("GET TABLE"@) + (enc_str("table"@) + enc_str(t)))));
    lemma_unchain(enc_map_hdr(2), (enc_str("action"@) + (enc_str("GET TABLE"@) + (enc_str("table"@) + enc_str(t)))));
}

/// Decoding inverts encoding on table deletions.
#[verifier::rlimit(100)]
#[verifier::spinoff_prover]
proof fn lemma_rt_delete_table(m: RequestModel)
    requires
        wf_request(m),
        m is DeleteTable,
    ensures
        dec_request(enc_request(m)) == Option::Some(m),
{
    reveal(enc_request);
    reveal(dec_request);
    reveal(dec_req_table_only);
    reveal_strlit("AUTH");
    reveal_strlit("DELETE TABLE");
    reveal_strlit("GET TABLE");
    reveal_strlit("INSERT TABLE");
    reveal_strlit("LIST TABLE");
    reveal_strlit("PING");
    reveal_strlit("action");
    reveal_strlit("table");
    assert(is_ascii_chars("DELETE TABLE"@));
    lemma_ascii_wf("DELETE TABLE"@);
    assert(is_ascii_chars("action"@));
    lemma_ascii_wf("action"@);
    assert(is_ascii_chars("table"@));
    lemma_ascii_wf("table"@);
    let t = m->DeleteTable_table;
    let s = enc_request(m);
    let e = Seq::<u8>::empty();
    assert(enc_str(t) + e =~= enc_str(t));
    lemma_dec_enc_field_str("action"@, "DELETE TABLE"@, (enc_str("table"@) + enc_str(t)));
    lemma_dec_enc_field_str("table"@, t, e);
    lemma_dec_enc_map_hdr(2, (enc_str("action"@) + (enc_str("DELETE TABLE"@) + (enc_str("table"@) + enc_str(t)))));
    lemma_unchain(enc_map_hdr(2), (enc_str("action"@) + (enc_str("DELETE TABLE"@) + (enc_str("table"@) + enc_str(t)))));
}

/// Decoding inverts encoding on key listings.
#[verifier::rlimit(100)]
#[verifier::spinoff_prover]
proof fn lemma_rt_list(m: RequestModel)
    requires
        wf_request(m),
        m is List,
    ensures
        dec_request(enc_request(m)) == Option::Some(m),
{
    reveal(enc_request);
    reveal(dec_request);
    reveal(dec_req_table_only);
    reveal_strlit("AUTH");
    reveal_strlit("DELETE TABLE");
    reveal_strlit("GET TABLE");
    reveal_strlit("INSERT TABLE");
    reveal_strlit("LIST");
    reveal_strlit("LIST TABLE");
    reveal_strlit("PING");
    reveal_strlit("action");
    reveal_strlit("table");
    assert(is_ascii_chars("LIST"@));
    lemma_ascii_wf("LIST"@);
    assert(is_ascii_chars("action"@));
    lemma_ascii_wf("action"@);
    assert(is_ascii_chars("table"@));
    lemma_ascii_wf("table"@);
    let t = m->List_table;
    let s = enc_request(m);
    let e = Seq::<u8>::empty();
    assert(enc_str(t) + e =~= enc_str(t));
    lemma_dec_enc_field_str("action"@, "LIST"@, (enc_str("table"@) + enc_str(t)));
    lemma_dec_enc_field_str("table"@, t, e);
    lemma_dec_enc_map_hdr(2, (enc_str("action"@) + (enc_str("LIST"@) + (enc_str("table"@) + enc_str(t)))));
    lemma_unchain(enc_map_hdr(2), (enc_str("action"@) + (enc_str("LIST"@) + (enc_str("table"@) + enc_str(t)))));
}

/// Decoding inverts encoding on single-key reads.
#[verifier::rlimit(100)]
#[verifier::spinoff_prover]
proof fn lemma_rt_get(m: RequestModel)
    requires
        wf_request(m),
        m is Get,
    ensures
        dec_request(enc_request(m)) == Option::Some(m),
{
    reveal(enc_request);
    reveal(dec_request);
    reveal(dec_req_table_key);
    reveal_strlit("AUTH");
    reveal_strlit("DELETE TABLE");
    reveal_strlit("GET");
    reveal_strlit("GET TABLE");
    reveal_strlit("INSERT TABLE");
    reveal_strlit("LIST");
    reveal_strlit("LIST TABLE");
    reveal_strlit("PING");
    reveal_strlit("action");
    reveal_strlit("key");
    reveal_strlit("table");
    assert(is_ascii_chars("GET"@));
    lemma_ascii_wf("GET"@);
    assert(is_ascii_chars("action"@));
    lemma_ascii_wf("action"@);
    assert(is_ascii_chars("key"@));
    lemma_ascii_wf("key"@);
    assert(is_ascii_chars("table"@));
    lemma_ascii_wf("table"@);
    let t = m->Get_table;
    let k = m->Get_key;
    let s = enc_request(m);
    let e = Seq::<u8>::empty();
    assert(enc_str(k) + e =~= enc_str(k));
    lemma_dec_enc_field_str("action"@, "GET"@, (enc_str("table"@) + (enc_str(t) + (enc_str("key"@) + enc_str(k)))));
    lemma_dec_enc_field_str("table"@, t, (enc_str("key"@) + enc_str(k)));
    lemma_dec_enc_field_str("key"@, k, e);
    lemma_dec_enc_map_hdr(3, (enc_str("action"@) + (enc_str("GET"@) + (enc_str("table"@) + (enc_str(t) + (enc_str("key"@) + enc_str(k)))))));
    lemma_unchain(enc_map_hdr(3), (enc_str("action"@) + (enc_str("GET"@) + (enc_str("table"@) + (enc_str(t) + (enc_str("key"@) + enc_str(k)))))));
}

/// Decoding inverts encoding on single-key deletions.
#[verifier::rlimit(100)]
#[verifier::spinoff_prover]
proof fn lemma_rt_delete(m: RequestModel)
    requires
        wf_request(m),
        m is Delete,
    ensures
        dec_request(enc_request(m)) == Option::Some(m),
{
    reveal(enc_request);
    reveal(dec_request);
    reveal(dec_req_table_key);
    reveal_strlit("AUTH");
    reveal_strlit("DELETE");
    reveal_strlit("DELETE TABLE");
    reveal_strlit("GET");
    reveal_strlit("GET TABLE");
    reveal_strlit("INSERT TABLE");
    reveal_strlit("LIST");
    reveal_strlit("LIST TABLE");
    reveal_strlit("PING");
    reveal_strlit("action");
    reveal_strlit("key");
    reveal_strlit("table");
    assert(is_ascii_chars("DELETE"@));
    lemma_ascii_wf("DELETE"@);
    assert(is_ascii_chars("action"@));
    lemma_ascii_wf("action"@);
    assert(is_ascii_chars("key"@));
    lemma_ascii_wf("key"@);
    assert(is_ascii_chars("table"@));
    lemma_ascii_wf("table"@);
    let t = m->Delete_table;
    let k = m->Delete_key;
    let s = enc_request(m);
    let e = Seq::<u8>::empty();
    assert(enc_str(k) + e =~= enc_str(k));
    lemma_dec_enc_field_str("action"@, "DELETE"@, (enc_str("table"@) + (enc_str(t) + (enc_str("key"@) + enc_str(k)))));
    lemma_dec_enc_field_str("table"@, t, (enc_str("key"@) + enc_str(k)));
    lemma_dec_enc_field_str("key"@, k, e);
    lemma_dec_enc_map_hdr(3, (enc_str("action"@) + (enc_str("DELETE"@) + (enc_str("table"@) + (enc_str(t) + (enc_str("key"@) + enc_str(k)))))));
    lemma_unchain(enc_map_hdr(3), (enc_str("action"@) + (enc_str("DELETE"@) + (enc_str("table"@) + (enc_str(t) + (enc_str("key"@) + enc_str(k)))))));
}

/// Decoding inverts encoding on table creations without contents.
#[verifier::rlimit(100)]
#[verifier::spinoff_prover]
proof fn lemma_rt_insert_table_bare(m: RequestModel)
    requires
        wf_request(m),
        m is InsertTable && m->InsertTable_contents is None,
    ensures
        dec_request(enc_request(m)) == Option::Some(m),
{
    reveal(enc_request);
    reveal(dec_request);
    reveal(dec_req_insert_table);
    reveal_strlit("AUTH");
    reveal_strlit("INSERT TABLE");
    reveal_strlit("LIST TABLE");
    reveal_strlit("PING");
    reveal_strlit("action");
    reveal_strlit("table");
    assert(is_ascii_chars("INSERT TABLE"@));
    lemma_ascii_wf("INSERT TABLE"@);
    assert(is_ascii_chars("action"@));
    lemma_ascii_wf("action"@);
    assert(is_ascii_chars("table"@));
    lemma_ascii_wf("table"@);
    let t = m->InsertTable_table;
    let s = enc_request(m);
    let e = Seq::<u8>::empty();
    assert(enc_str(t) + e =~= enc_str(t));
    lemma_dec_enc_field_str("action"@, "INSERT TABLE"@, (enc_str("table"@) + enc_str(t)));
    lemma_dec_enc_field_str("table"@, t, e);
    lemma_dec_enc_map_hdr(2, (enc_str("action"@) + (enc_str("INSERT TABLE"@) + (enc_str("table"@) + enc_str(t)))));
    lemma_unchain(enc_map_hdr(2), (enc_str("action"@) + (enc_str("INSERT TABLE"@) + (enc_str("table"@) + enc_str(t)))));
}

/// Decoding inverts encoding on table creations with contents.
#[verifier::rlimit(100)]
#[verifier::spinoff_prover]
proof fn lemma_rt_insert_table_full(m: RequestModel)
    requires
        wf_request(m),
        m is InsertTable && m->InsertTable_contents is Some,
    ensures
        dec_request(enc_request(m)) == Option::Some(m),
{
    reveal(enc_request);
    reveal(dec_request);
    reveal(dec_req_insert_table);
    reveal_strlit("INSERT TABLE");
    reveal_strlit("action");
    reveal_strlit("contents");
    reveal_strlit("table");
    assert(is_ascii_chars("INSERT TABLE"@));
    lemma_ascii_wf("INSERT TABLE"@);
    assert(is_ascii_chars("action"@));
    lemma_ascii_wf("action"@);
    assert(is_ascii_chars("contents"@));
    lemma_ascii_wf("contents"@);
    assert(is_ascii_chars("table"@));
    lemma_ascii_wf("table"@);
    let t = m->InsertTable_table;
    let cs = m->InsertTable_contents.unwrap();
    let s = enc_request(m);
    let e = Seq::<u8>::empty();
    assert(enc_insert_map(cs) + e =~= enc_insert_map(cs));
    lemma_dec_enc_field_str("action"@, "INSERT TABLE"@, (enc_str("table"@) + (enc_str(t) + (enc_str("contents"@) + enc_insert_map(cs)))));
    lemma_dec_enc_field_str("table"@, t, (enc_str("contents"@) + enc_insert_map(cs)));
    lemma_dec_enc_str("contents"@, enc_insert_map(cs));
    lemma_unchain(enc_str("contents"@), enc_insert_map(cs));
    lemma_dec_enc_insert_map(cs, e);
    lemma_unchain(enc_insert_map(cs), e);
    lemma_dec_enc_map_hdr(3, (enc_str("action"@) + (enc_str("INSERT TABLE"@) + (enc_str("table"@) + (enc_str(t) + (enc_str("contents"@) + enc_insert_map(cs)))))));
    lemma_unchain(enc_map_hdr(3), (enc_str("action"@) + (enc_str("INSERT TABLE"@) + (enc_str("table"@) + (enc_str(t) + (enc_str("contents"@) + enc_insert_map(cs)))))));

    lemma_body_insert_table(
        s.skip(dec_map_hdr(s).unwrap().1).skip(
            dec_field_str(s.skip(dec_map_hdr(s).unwrap().1), "action"@).unwrap().1,
        ),
        dec_map_hdr(s).unwrap().0,
    );
}

/// Decoding inverts encoding on key insertions without a lifetime.
#[verifier::rlimit(100)]
#[verifier::spinoff_prover]
proof fn lemma_rt_insert_bare(m: RequestModel)
    requires
        wf_request(m),
        m is Insert && m->Insert_value.lifetime is None,
    ensures
        dec_request(enc_request(m)) == Option::Some(m),
{
    reveal(enc_request);
    reveal(dec_request);
    reveal(dec_req_insert);
    reveal_strlit("INSERT");
    reveal_strlit("action");
    reveal_strlit("key");
    reveal_strlit("table");
    reveal_strlit("value");
    assert(is_ascii_chars("INSERT"@));
    lemma_ascii_wf("INSERT"@);
    assert(is_ascii_chars("action"@));
    lemma_ascii_wf("action"@);
    assert(is_ascii_chars("key"@));
    lemma_ascii_wf("key"@);
    assert(is_ascii_chars("table"@));
    lemma_ascii_wf("table"@);
    assert(is_ascii_chars("value"@));
    lemma_ascii_wf("value"@);
    let t = m->Insert_table;
    let k = m->Insert_key;
    let v = m->Insert_value;
    let s = enc_request(m);
    let e = Seq::<u8>::empty();
    assert(enc_val(v.value) + e =~= enc_val(v.value));
    lemma_dec_enc_field_str("action"@, "INSERT"@, (enc_str("table"@) + (enc_str(t) + (enc_str("key"@) + (enc_str(k) + (enc_str("value"@) + enc_val(v.value)))))));
    lemma_dec_enc_field_str("table"@, t, (enc_str("key"@) + (enc_str(k) + (enc_str("value"@) + enc_val(v.value)))));
    lemma_dec_enc_field_str("key"@, k, (enc_str("value"@) + enc_val(v.value)));
    lemma_dec_enc_field_val("value"@, v.value, e);
    lemma_dec_enc_map_hdr(4, (enc_str("action"@) + (enc_str("INSERT"@) + (enc_str("table"@) + (enc_str(t) + (enc_str("key"@) + (enc_str(k) + (enc_str("value"@) + enc_val(v.value)))))))));
    lemma_unchain(enc_map_hdr(4), (enc_str("action"@) + (enc_str("INSERT"@) + (enc_str("table"@) + (enc_str(t) + (enc_str("key"@) + (enc_str(k) + (enc_str("value"@) + enc_val(v.value)))))))));

    lemma_body_insert(
        s.skip(dec_map_hdr(s).unwrap().1).skip(
            dec_field_str(s.skip(dec_map_hdr(s).unwrap().1), "action"@).unwrap().1,
        ),
        dec_map_hdr(s).unwrap().0,
    );
}

/// Decoding inverts encoding on key insertions with a lifetime.
#[verifier::rlimit(100)]
#[verifier::spinoff_prover]
proof fn lemma_rt_insert_full(m: RequestModel)
    requires
        wf_request(m),
        m is Insert && m->Insert_value.lifetime is Some,
    ensures
        dec_request(enc_request(m)) == Option::Some(m),
{
    reveal(enc_request);
    reveal(dec_request);
    reveal(dec_req_insert);
    reveal_strlit("INSERT");
    reveal_strlit("action");
    reveal_strlit("key");
    reveal_strlit("lifetime");
    reveal_strlit("table");
    reveal_strlit("value");
    assert(is_ascii_chars("INSERT"@));
    lemma_ascii_wf("INSERT"@);
    assert(is_ascii_chars("action"@));
    lemma_ascii_wf("action"@);
    assert(is_ascii_chars("key"@));
    lemma_ascii_wf("key"@);
    assert(is_ascii_chars("lifetime"@));
    lemma_ascii_wf("lifetime"@);
    assert(is_ascii_chars("table"@));
    lemma_ascii_wf("table"@);
    assert(is_ascii_chars("value"@));
    lemma_ascii_wf("value"@);
    let t = m->Insert_table;
    let k = m->Insert_key;
    let v = m->Insert_value;
    let l = m->Insert_value.lifetime.unwrap();
    let s = enc_request(m);
    let e = Seq::<u8>::empty();
    assert(enc_uint(l) + e =~= enc_uint(l));
    lemma_dec_enc_field_str("action"@, "INSERT"@, (enc_str("table"@) + (enc_str(t) + (enc_str("key"@) + (enc_str(k) + (enc_str("value"@) + (enc_val(v.value) + (enc_str("lifetime"@) + enc_uint(l)))))))));
    lemma_dec_enc_field_str("table"@, t, (enc_str("key"@) + (enc_str(k) + (enc_str("value"@) + (enc_val(v.value) + (enc_str("lifetime"@) + enc_uint(l)))))));
    lemma_dec_enc_field_str("key"@, k, (enc_str("value"@) + (enc_val(v.value) + (enc_str("lifetime"@) + enc_uint(l)))));
    lemma_dec_enc_field_val("value"@, v.value, (enc_str("lifetime"@) + enc_uint(l)));
    lemma_dec_enc_field_uint("lifetime"@, l, e);
    lemma_dec_enc_map_hdr(5, (enc_str("action"@) + (enc_str("INSERT"@) + (enc_str("table"@) + (enc_str(t) + (enc_str("key"@) + (enc_str(k) + (enc_str("value"@) + (enc_val(v.value) + (enc_str("lifetime"@) + enc_uint(l)))))))))));
    lemma_unchain(enc_map_hdr(5), (enc_str("action"@) + (enc_str("INSERT"@) + (enc_str("table"@) + (enc_str(t) + (enc_str("key"@) + (enc_str(k) + (enc_str("value"@) + (enc_val(v.value) + (enc_str("lifetime"@) + enc_uint(l)))))))))));

    lemma_body_insert(
        s.skip(dec_map_hdr(s).unwrap().1).skip(
            dec_field_str(s.skip(dec_map_hdr(s).unwrap().1), "action"@).unwrap().1,
        ),
        dec_map_hdr(s).unwrap().0,
    );
}

/// Decoding inverts encoding on every well-formed request.
pub proof fn lemma_dec_enc_request(m: RequestModel)
    requires
        wf_request(m),
    ensures
        dec_request(enc_request(m)) == Option::Some(m),
{
    match m {
        RequestModel::Ping => lemma_rt_ping(m),
        RequestModel::ListTables => lemma_rt_list_tables(m),
        RequestModel::Auth { .. } => lemma_rt_auth(m),
        RequestModel::GetTable { .. } => lemma_rt_get_table(m),
        RequestModel::DeleteTable { .. } => lemma_rt_delete_table(m),
        RequestModel::List { .. } => lemma_rt_list(m),
        RequestModel::Get { .. } => lemma_rt_get(m),
        RequestModel::Delete { .. } => lemma_rt_delete(m),
        RequestModel::InsertTable { table, contents } => if contents is None {
            lemma_rt_insert_table_bare(m);
        } else {
            lemma_rt_insert_table_full(m);
        },
        RequestModel::Insert { table, key, value } => if value.lifetime is None {
            lemma_rt_insert_bare(m);
        } else {
            lemma_rt_insert_full(m);
        },
    }
}



/// Appends the encoding of a ping request.
fn enc_req_ping(out: &mut Vec<u8>)
    ensures
        final(out)@ == old(out)@ + enc_request(RequestModel::Ping),
{
    proof {
        reveal(enc_request);
        reveal_strlit("action");
        reveal_strlit("PING");
        assert(is_ascii_chars("action"@));
        lemma_ascii_wf("action"@);
        assert(is_ascii_chars("PING"@));
        lemma_ascii_wf("PING"@);
    }
    push_map_hdr(out, 1);
    encode_string("action", out);
    encode_string("PING", out);
    proof {
        assert(out@ =~= old(out)@ + enc_request(RequestModel::Ping));
    }
}

/// Appends the encoding of a table-listing request.
fn enc_req_list_tables(out: &mut Vec<u8>)
    ensures
        final(out)@ == old(out)@ + enc_request(RequestModel::ListTables),
{
    proof {
        reveal(enc_request);
        reveal_strlit("action");
        reveal_strlit("LIST TABLE");
        assert(is_ascii_chars("action"@));
        lemma_ascii_wf("action"@);
        assert(is_ascii_chars("LIST TABLE"@));
        lemma_ascii_wf("LIST TABLE"@);
    }
    push_map_hdr(out, 1);
    encode_string("action", out);
    encode_string("LIST TABLE", out);
    proof {
        assert(out@ =~= old(out)@ + enc_request(RequestModel::ListTables));
    }
}

/// Appends the encoding of an authentication request.
fn enc_req_auth(username: &String, password: &String, out: &mut Vec<u8>)
    requires
        wf_str(username@),
        wf_str(password@),
    ensures
        final(out)@ == old(out)@ + enc_request(
            RequestModel::Auth { username: username@, password: password@ },
        ),
{
    proof {
        reveal(enc_request);
        reveal_strlit("action");
        reveal_strlit("AUTH");
        reveal_strlit("username");
        reveal_strlit("password");
        assert(is_ascii_chars("action"@));
        lemma_ascii_wf("action"@);
        assert(is_ascii_chars("AUTH"@));
        lemma_ascii_wf("AUTH"@);
        assert(is_ascii_chars("username"@));
        lemma_ascii_wf("username"@);
        assert(is_ascii_chars("password"@));
        lemma_ascii_wf("password"@);
    }
    push_map_hdr(out, 3);
    encode_string("action", out);
    encode_string("AUTH", out);
    encode_string("username", out);
    encode_string(username.as_str(), out);
    encode_string("password", out);
    encode_string(password.as_str(), out);
    proof {
        assert(out@ =~= old(out)@ + enc_request(
            RequestModel::Auth { username: username@, password: password@ },
        ));
    }
}

/// Appends the encoding of a request that carries the action and one table name.
fn enc_req_act_table(act: &str, table: &String, out: &mut Vec<u8>)
    requires
        wf_str(act@),
        wf_str(table@),
    ensures
        final(out)@ == old(out)@ + enc_map_hdr(2) + (enc_str("action"@) + (enc_str(act@) + (
        enc_str("table"@) + enc_str(table@)))),
{
    proof {
        reveal_strlit("action");
        reveal_strlit("table");
        assert(is_ascii_chars("action"@));
        lemma_ascii_wf("action"@);
        assert(is_ascii_chars("table"@));
        lemma_ascii_wf("table"@);
    }
    push_map_hdr(out, 2);
    encode_string("action", out);
    encode_string(act, out);
    encode_string("table", out);
    encode_string(table.as_str(), out);
    proof {
        assert(out@ =~= old(out)@ + enc_map_hdr(2) + (enc_str("action"@) + (enc_str(act@) + (
        enc_str("table"@) + enc_str(table@)))));
    }
}

/// Appends the encoding of a request that carries the action, a table and a key.
fn enc_req_act_table_key(act: &str, table: &String, key: &String, out: &mut Vec<u8>)
    requires
        wf_str(act@),
        wf_str(table@),
        wf_str(key@),
    ensures
        final(out)@ == old(out)@ + enc_map_hdr(3) + (enc_str("action"@) + (enc_str(act@) + (
        enc_str("table"@) + (enc_str(table@) + (enc_str("key"@) + enc_str(key@)))))),
{
    proof {
        reveal_strlit("action");
        reveal_strlit("table");
        reveal_strlit("key");
        assert(is_ascii_chars("action"@));
        lemma_ascii_wf("action"@);
        assert(is_ascii_chars("table"@));
        lemma_ascii_wf("table"@);
        assert(is_ascii_chars("key"@));
        lemma_ascii_wf("key"@);
    }
    push_map_hdr(out, 3);
    encode_string("action", out);
    encode_string(act, out);
    encode_string("table", out);
    encode_string(table.as_str(), out);
    encode_string("key", out);
    encode_string(key.as_str(), out);
    proof {
        assert(out@ =~= old(out)@ + enc_map_hdr(3) + (enc_str("action"@) + (enc_str(act@) + (
        enc_str("table"@) + (enc_str(table@) + (enc_str("key"@) + enc_str(key@)))))));
    }
}

/// Appends the encoding of a table creation.
#[verifier::rlimit(100)]
#[verifier::spinoff_prover]
fn enc_req_insert_table(table: &String, contents: &Option<Vec<(String, InsertTableValue)>>, out: &mut Vec<u8>)
    requires
        wf_request(
            RequestModel::InsertTable {
                table: table@,
                contents: match contents {
                    Option::None => Option::None,
                    Option::Some(cs) => Option::Some(insert_pairs_model(cs@)),
                },
            },
        ),
    ensures
        final(out)@ == old(out)@ + enc_request(
            RequestModel::InsertTable {
                table: table@,
                contents: match contents {
                    Option::None => Option::None,
                    Option::Some(cs) => Option::Some(insert_pairs_model(cs@)),
                },
            },
        ),
{
    proof {
        reveal(enc_request);
        reveal_strlit("action");
        reveal_strlit("INSERT TABLE");
        reveal_strlit("table");
        reveal_strlit("contents");
        assert(is_ascii_chars("action"@));
        lemma_ascii_wf("action"@);
        assert(is_ascii_chars("INSERT TABLE"@));
        lemma_ascii_wf("INSERT TABLE"@);
        assert(is_ascii_chars("table"@));
        lemma_ascii_wf("table"@);
        assert(is_ascii_chars("contents"@));
        lemma_ascii_wf("contents"@);
    }
    match contents {
        Option::None => {
            push_map_hdr(out, 2);
            encode_string("action", out);
            encode_string("INSERT TABLE", out);
            encode_string("table", out);
            encode_string(table.as_str(), out);
            proof {
                assert(out@ =~= old(out)@ + enc_request(
                    RequestModel::InsertTable { table: table@, contents: Option::None },
                ));
            }
        },
        Option::Some(cs) => {
            push_map_hdr(out, 3);
            encode_string("action", out);
            encode_string("INSERT TABLE", out);
            encode_string("table", out);
            encode_string(table.as_str(), out);
            encode_string("contents", out);
            proof {
                assert forall|i: int| 0 <= i < cs@.len() implies wf_str(#[trigger] cs@[i].0@)
                    && wf_insert_value(cs@[i].1@) by {
                    assert(insert_pairs_model(cs@)[i] == (cs@[i].0@, cs@[i].1@));
                    assert(wf_str(insert_pairs_model(cs@)[i].0));
                    assert(wf_insert_value(insert_pairs_model(cs@)[i].1));
                }
            }
            encode_insert_map(cs, out);
            proof {
                assert(out@ =~= old(out)@ + enc_request(
                    RequestModel::InsertTable {
                        table: table@,
                        contents: Option::Some(insert_pairs_model(cs@)),
                    },
                ));
            }
        },
    }
}

/// Appends the encoding of a key insertion.
#[verifier::rlimit(100)]
#[verifier::spinoff_prover]
fn enc_req_insert(table: &String, key: &String, value: &InsertTableValue, out: &mut Vec<u8>)
    requires
        wf_str(table@),
        wf_str(key@),
        wf_insert_value(value@),
    ensures
        final(out)@ == old(out)@ + enc_request(
            RequestModel::Insert { table: table@, key: key@, value: value@ },
        ),
{
    proof {
        reveal(enc_request);
        reveal_strlit("action");
        reveal_strlit("INSERT");
        reveal_strlit("table");
        reveal_strlit("key");
        reveal_strlit("value");
        reveal_strlit("lifetime");
        assert(is_ascii_chars("action"@));
        lemma_ascii_wf("action"@);
        assert(is_ascii_chars("INSERT"@));
        lemma_ascii_wf("INSERT"@);
        assert(is_ascii_chars("table"@));
        lemma_ascii_wf("table"@);
        assert(is_ascii_chars("key"@));
        lemma_ascii_wf("key"@);
        assert(is_ascii_chars("value"@));
        lemma_ascii_wf("value"@);
        assert(is_ascii_chars("lifetime"@));
        lemma_ascii_wf("lifetime"@);
    }
    match &value.lifetime {
        Option::None => {
            push_map_hdr(out, 4);
            encode_string("action", out);
            encode_string("INSERT", out);
            encode_string("table", out);
            encode_string(table.as_str(), out);
            encode_string("key", out);
            encode_string(key.as_str(), out);
            encode_string("value", out);
            encode_value(&value.value, out);
            proof {
                assert(out@ =~= old(out)@ + enc_request(
                    RequestModel::Insert { table: table@, key: key@, value: value@ },
                ));
            }
        },
        Option::Some(l) => {
            push_map_hdr(out, 5);
            encode_string("action", out);
            encode_string("INSERT", out);
            encode_string("table", out);
            encode_string(table.as_str(), out);
            encode_string("key", out);
            encode_string(key.as_str(), out);
            encode_string("value", out);
            encode_value(&value.value, out);
            encode_string("lifetime", out);
            push_uint(out, *l);
            proof {
                assert(out@ =~= old(out)@ + enc_request(
                    RequestModel::Insert { table: table@, key: key@, value: value@ },
                ));
            }
        },
    }
}

/// Appends the encoding of a request.
pub fn encode_request(req: &Request, out: &mut Vec<u8>)
    requires
        wf_request(req@),
    ensures
        final(out)@ == old(out)@ + enc_request(req@),
{
    match req {
        Request::Ping => enc_req_ping(out),
        Request::ListTables => enc_req_list_tables(out),
        Request::Auth { username, password } => enc_req_auth(username, password, out),
        Request::InsertTable { table, contents } => enc_req_insert_table(table, contents, out),
        Request::GetTable { table } => {
            proof {
                reveal(enc_request);
                reveal_strlit("GET TABLE");
                assert(is_ascii_chars("GET TABLE"@));
                lemma_ascii_wf("GET TABLE"@);
            }
            enc_req_act_table("GET TABLE", table, out);
        },
        Request::DeleteTable { table } => {
            proof {
                reveal(enc_request);
                reveal_strlit("DELETE TABLE");
                assert(is_ascii_chars("DELETE TABLE"@));
                lemma_ascii_wf("DELETE TABLE"@);
            }
            enc_req_act_table("DELETE TABLE", table, out);
        },
        Request::List { table } => {
            proof {
                reveal(enc_request);
                reveal_strlit("LIST");
                assert(is_ascii_chars("LIST"@));
                lemma_ascii_wf("LIST"@);
            }
            enc_req_act_table("LIST", table, out);
        },
        Request::Get { table, key } => {
            proof {
                reveal(enc_request);
                reveal_strlit("GET");
                assert(is_ascii_chars("GET"@));
                lemma_ascii_wf("GET"@);
            }
            enc_req_act_table_key("GET", table, key, out);
        },
        Request::Delete { table, key } => {
            proof {
                reveal(enc_request);
                reveal_strlit("DELETE");
                assert(is_ascii_chars("DELETE"@));
                lemma_ascii_wf("DELETE"@);
            }
            enc_req_act_table_key("DELETE", table, key, out);
        },
        Request::Insert { table, key, value } => enc_req_insert(table, key, value, out),
    }
}


/// Reads a body that holds one `table` field and nothing more.
fn dx_table_only(s: &Vec<u8>, pos: usize, n: u32) -> (r: Option<String>)
    requires
        pos <= s.len(),
    ensures
        match r {
            Option::Some(t) => dec_req_table_only(s@.skip(pos as int), n as int) == Option::Some(
                t@,
            ) && wf_str(t@),
            Option::None => dec_req_table_only(s@.skip(pos as int), n as int) is None,
        },
{
    proof {
        reveal(dec_req_table_only);
    }
    if n != 2 {
        return Option::None;
    }
    let (t, c) = match decode_field_str(s, pos, "table") {
        Option::None => {
            return Option::None;
        },
        Option::Some(x) => x,
    };
    proof {
        lemma_skip_skip(s@, pos as int, c as int);
    }
    if pos + c == s.len() {
        Option::Some(t)
    } else {
        Option::None
    }
}

/// Reads a body that holds a `table` and a `key` field and nothing more.
fn dx_table_key(s: &Vec<u8>, pos: usize, n: u32) -> (r: Option<(String, String)>)
    requires
        pos <= s.len(),
    ensures
        match r {
            Option::Some(tk) => dec_req_table_key(s@.skip(pos as int), n as int) == Option::Some(
                (tk.0@, tk.1@),
            ) && wf_str(tk.0@) && wf_str(tk.1@),
            Option::None => dec_req_table_key(s@.skip(pos as int), n as int) is None,
        },
{
    proof {
        reveal(dec_req_table_key);
    }
    if n != 3 {
        return Option::None;
    }
    let (t, c) = match decode_field_str(s, pos, "table") {
        Option::None => {
            return Option::None;
        },
        Option::Some(x) => x,
    };
    proof {
        lemma_skip_skip(s@, pos as int, c as int);
    }
    let (k, c2) = match decode_field_str(s, pos + c, "key") {
        Option::None => {
            return Option::None;
        },
        Option::Some(x) => x,
    };
    proof {
        lemma_skip_skip(s@, pos + c, c2 as int);
    }
    if pos + c + c2 == s.len() {
        Option::Some((t, k))
    } else {
        Option::None
    }
}

/// Reads the body of an authentication request.
fn dx_auth(s: &Vec<u8>, pos: usize, n: u32) -> (r: Option<(String, String)>)
    requires
        pos <= s.len(),
    ensures
        match r {
            Option::Some(up) => dec_req_auth(s@.skip(pos as int), n as int) == Option::Some(
                RequestModel::Auth { username: up.0@, password: up.1@ },
            ) && wf_str(up.0@) && wf_str(up.1@),
            Option::None => dec_req_auth(s@.skip(pos as int), n as int) is None,
        },
{
    proof {
        reveal(dec_req_auth);
    }
    if n != 3 {
        return Option::None;
    }
    let (u, c) = match decode_field_str(s, pos, "username") {
        Option::None => {
            return Option::None;
        },
        Option::Some(x) => x,
    };
    proof {
        lemma_skip_skip(s@, pos as int, c as int);
    }
    let (pw, c2) = match decode_field_str(s, pos + c, "password") {
        Option::None => {
            return Option::None;
        },
        Option::Some(x) => x,
    };
    proof {
        lemma_skip_skip(s@, pos + c, c2 as int);
    }
    if pos + c + c2 == s.len() {
        Option::Some((u, pw))
    } else {
        Option::None
    }
}

/// Reads the body of a table creation.
#[verifier::rlimit(100)]
#[verifier::spinoff_prover]
fn dx_insert_table(s: &Vec<u8>, pos: usize, n: u32) -> (r: Option<
    (String, Option<Vec<(String, InsertTableValue)>>),
>)
    requires
        pos <= s.len(),
    ensures
        match r {
            Option::Some(tc) => {
                &&& dec_req_insert_table(s@.skip(pos as int), n as int) == Option::Some(
                    RequestModel::InsertTable {
                        table: tc.0@,
                        contents: match tc.1 {
                            Option::None => Option::None,
                            Option::Some(cs) => Option::Some(insert_pairs_model(cs@)),
                        },
                    },
                )
                &&& wf_request(
                    RequestModel::InsertTable {
                        table: tc.0@,
                        contents: match tc.1 {
                            Option::None => Option::None,
                            Option::Some(cs) => Option::Some(insert_pairs_model(cs@)),
                        },
                    },
                )
            },
            Option::None => dec_req_insert_table(s@.skip(pos as int), n as int) is None,
        },
{
    proof {
        reveal(dec_req_insert_table);
    }
    let (t, c) = match decode_field_str(s, pos, "table") {
        Option::None => {
            return Option::None;
        },
        Option::Some(x) => x,
    };
    proof {
        lemma_skip_skip(s@, pos as int, c as int);
    }
    if n == 2 {
        if pos + c == s.len() {
            return Option::Some((t, Option::None));
        } else {
            return Option::None;
        }
    }
    if n != 3 {
        return Option::None;
    }
    let (k, c2) = match decode_string(s, pos + c) {
        Option::None => {
            return Option::None;
        },
        Option::Some(x) => x,
    };
    if !str_eq(k.as_str(), "contents") {
        return Option::None;
    }
    proof {
        lemma_skip_skip(s@, pos + c, c2 as int);
    }
    let (cs, c3) = match decode_insert_map(s, pos + c + c2) {
        Option::None => {
            return Option::None;
        },
        Option::Some(x) => x,
    };
    proof {
        lemma_skip_skip(s@, pos + c + c2, c3 as int);
    }
    if pos + c + c2 + c3 == s.len() && cs.len() < 0xffff_fffe {
        proof {
            assert forall|i: int| 0 <= i < insert_pairs_model(cs@).len() implies wf_str(
                #[trigger] insert_pairs_model(cs@)[i].0,
            ) && wf_insert_value(insert_pairs_model(cs@)[i].1) by {
                assert(insert_pairs_model(cs@)[i] == (cs@[i].0@, cs@[i].1@));
            }
        }
        Option::Some((t, Option::Some(cs)))
    } else {
        Option::None
    }
}

/// Reads the body of a key insertion.
#[verifier::rlimit(100)]
#[verifier::spinoff_prover]
fn dx_insert(s: &Vec<u8>, pos: usize, n: u32) -> (r: Option<(String, String, InsertTableValue)>)
    requires
        pos <= s.len(),
    ensures
        match r {
            Option::Some(tkv) => {
                &&& dec_req_insert(s@.skip(pos as int), n as int) == Option::Some(
                    RequestModel::Insert { table: tkv.0@, key: tkv.1@, value: tkv.2@ },
                )
                &&& wf_str(tkv.0@)
                &&& wf_str(tkv.1@)
                &&& wf_insert_value(tkv.2@)
            },
            Option::None => dec_req_insert(s@.skip(pos as int), n as int) is None,
        },
{
    proof {
        reveal(dec_req_insert);
    }
    if n != 4 && n != 5 {
        return Option::None;
    }
    let (t, c) = match decode_field_str(s, pos, "table") {
        Option::None => {
            return Option::None;
        },
        Option::Some(x) => x,
    };
    proof {
        lemma_skip_skip(s@, pos as int, c as int);
    }
    let (k, c2) = match decode_field_str(s, pos + c, "key") {
        Option::None => {
            return Option::None;
        },
        Option::Some(x) => x,
    };
    proof {
        lemma_skip_skip(s@, pos + c, c2 as int);
    }
    let (v, c3) = match decode_field_val(s, pos + c + c2, "value") {
        Option::None => {
            return Option::None;
        },
        Option::Some(x) => x,
    };
    proof {
        lemma_skip_skip(s@, pos + c + c2, c3 as int);
    }
    if n == 4 {
        if pos + c + c2 + c3 == s.len() {
            return Option::Some((t, k, InsertTableValue { value: v, lifetime: Option::None }));
        } else {
            return Option::None;
        }
    }
    let (l, c4) = match decode_field_uint(s, pos + c + c2 + c3, "lifetime") {
        Option::None => {
            return Option::None;
        },
        Option::Some(x) => x,
    };
    proof {
        lemma_skip_skip(s@, pos + c + c2 + c3, c4 as int);
    }
    if pos + c + c2 + c3 + c4 == s.len() {
        Option::Some((t, k, InsertTableValue { value: v, lifetime: Option::Some(l) }))
    } else {
        Option::None
    }
}

/// Reads a whole request from `s`: trailing bytes are refused, and what it
/// returns follows the decoder model exactly.
#[verifier::rlimit(100)]
#[verifier::spinoff_prover]
pub fn decode_request(s: &Vec<u8>) -> (r: Option<Request>)
    ensures
        match r {
            Option::Some(req) => dec_request(s@) == Option::Some(req@) && wf_request(req@),
            Option::None => dec_request(s@) is None,
        },
{
    proof {
        reveal(dec_request);
        assert(s@.skip(0) =~= s@);
    }
    let (n, hl) = match read_map_hdr(s, 0) {
        Option::None => {
            return Option::None;
        },
        Option::Some(x) => x,
    };
    let (act, ca) = match decode_field_str(s, hl, "action") {
        Option::None => {
            return Option::None;
        },
        Option::Some(x) => x,
    };
    proof {
        lemma_skip_skip(s@, hl as int, ca as int);
    }
    let base = hl + ca;
    if str_eq(act.as_str(), "PING") {
        if n == 1 && base == s.len() {
            Option::Some(Request::Ping)
        } else {
            Option::None
        }
    } else if str_eq(act.as_str(), "AUTH") {
        match dx_auth(s, base, n) {
            Option::None => Option::None,
            Option::Some((u, pw)) => Option::Some(Request::Auth { username: u, password: pw }),
        }
    } else if str_eq(act.as_str(), "LIST TABLE") {
        if n == 1 && base == s.len() {
            Option::Some(Request::ListTables)
        } else {
            Option::None
        }
    } else if str_eq(act.as_str(), "INSERT TABLE") {
        match dx_insert_table(s, base, n) {
            Option::None => Option::None,
            Option::Some((t, cs)) => Option::Some(Request::InsertTable { table: t, contents: cs }),
        }
    } else if str_eq(act.as_str(), "GET TABLE") {
        match dx_table_only(s, base, n) {
            Option::None => Option::None,
            Option::Some(t) => Option::Some(Request::GetTable { table: t }),
        }
    } else if str_eq(act.as_str(), "DELETE TABLE") {
        match dx_table_only(s, base, n) {
            Option::None => Option::None,
            Option::Some(t) => Option::Some(Request::DeleteTable { table: t }),
        }
    } else if str_eq(act.as_str(), "LIST") {
        match dx_table_only(s, base, n) {
            Option::None => Option::None,
            Option::Some(t) => Option::Some(Request::List { table: t }),
        }
    } else if str_eq(act.as_str(), "GET") {
        match dx_table_key(s, base, n) {
            Option::None => Option::None,
            Option::Some((t, k)) => Option::Some(Request::Get { table: t, key: k }),
        }
    } else if str_eq(act.as_str(), "DELETE") {
        match dx_table_key(s, base, n) {
            Option::None => Option::None,
            Option::Some((t, k)) => Option::Some(Request::Delete { table: t, key: k }),
        }
    } else if str_eq(act.as_str(), "INSERT") {
        match dx_insert(s, base, n) {
            Option::None => Option::None,
            Option::Some((t, k, v)) => Option::Some(Request::Insert { table: t, key: k, value: v }),
        }
    } else {
        Option::None
    }
}


/// The status named by its serialized text, if any status has that text.
pub open spec fn status_of_text(t: Seq<char>) -> Option<Status> {
    if t == "OK"@ {
        Option::Some(Status::Success)
    } else if t == "Too many connections"@ {
        Option::Some(Status::ConnLimit)
    } else if t == "Malformed request"@ {
        Option::Some(Status::BadRequest)
    } else if t == "Server error"@ {
        Option::Some(Status::ServerError)
    } else if t == "Request too large"@ {
        Option::Some(Status::RequestTooLarge)
    } else if t == "Response too large"@ {
        Option::Some(Status::ResponseTooLarge)
    } else if t == "Unauthorized"@ {
        Option::Some(Status::Unauthorized)
    } else if t == "Permission denied"@ {
        Option::Some(Status::PermissionDenied)
    } else if t == "Invalid credentials"@ {
        Option::Some(Status::BadCredentials)
    } else if t == "Already exists"@ {
        Option::Some(Status::AlreadyExists)
    } else if t == "No such table"@ {
        Option::Some(Status::NoSuchTable)
    } else if t == "No such key"@ {
        Option::Some(Status::NoSuchKey)
    } else if t == "Key expired"@ {
        Option::Some(Status::KeyExpired)
    } else {
        Option::None
    }
}

/// Reading back a status text names the status it came from, and every
/// status text is a short ASCII string.
pub proof fn lemma_status_text(st: Status)
    ensures
        status_of_text(st.spec_text()) == Option::Some(st),
        wf_str(st.spec_text()),
        is_ascii_chars(st.spec_text()),
{
    reveal_strlit("OK");
    reveal_strlit("Too many connections");
    reveal_strlit("Malformed request");
    reveal_strlit("Server error");
    reveal_strlit("Request too large");
    reveal_strlit("Response too large");
    reveal_strlit("Unauthorized");
    reveal_strlit("Permission denied");
    reveal_strlit("Invalid credentials");
    reveal_strlit("Already exists");
    reveal_strlit("No such table");
    reveal_strlit("No such key");
    reveal_strlit("Key expired");
    assert("OK"@.len() == 2);
    assert("Too many connections"@.len() == 20);
    assert("Malformed request"@.len() == 17);
    assert("Server error"@.len() == 12);
    assert("Request too large"@.len() == 17);
    assert("Response too large"@.len() == 18);
    assert("Unauthorized"@.len() == 12);
    assert("Permission denied"@.len() == 17);
    assert("Invalid credentials"@.len() == 19);
    assert("Already exists"@.len() == 14);
    assert("No such table"@.len() == 13);
    assert("No such key"@.len() == 11);
    assert("Key expired"@.len() == 11);
    assert("Malformed request"@[0] == 'M' && "Request too large"@[0] == 'R'
        && "Permission denied"@[0] == 'P');
    assert("Server error"@[0] == 'S' && "Unauthorized"@[0] == 'U');
    assert("No such key"@[0] == 'N' && "Key expired"@[0] == 'K');
    assert(is_ascii_chars(st.spec_text()));
    lemma_ascii_wf(st.spec_text());
}

/// The status named by the given text, if any.
pub fn status_from_text(t: &str) -> (r: Option<Status>)
    ensures
        r == status_of_text(t@),
{
    if str_eq(t, "OK") {
        Option::Some(Status::Success)
    } else if str_eq(t, "Too many connections") {
        Option::Some(Status::ConnLimit)
    } else if str_eq(t, "Malformed request") {
        Option::Some(Status::BadRequest)
    } else if str_eq(t, "Server error") {
        Option::Some(Status::ServerError)
    } else if str_eq(t, "Request too large") {
        Option::Some(Status::RequestTooLarge)
    } else if str_eq(t, "Response too large") {
        Option::Some(Status::ResponseTooLarge)
    } else if str_eq(t, "Unauthorized") {
        Option::Some(Status::Unauthorized)
    } else if str_eq(t, "Permission denied") {
        Option::Some(Status::PermissionDenied)
    } else if str_eq(t, "Invalid credentials") {
        Option::Some(Status::BadCredentials)
    } else if str_eq(t, "Already exists") {
        Option::Some(Status::AlreadyExists)
    } else if str_eq(t, "No such table") {
        Option::Some(Status::NoSuchTable)
    } else if str_eq(t, "No such key") {
        Option::Some(Status::NoSuchKey)
    } else if str_eq(t, "Key expired") {
        Option::Some(Status::KeyExpired)
    } else {
        Option::None
    }
}

/// The encoding of a response: its status and, flattened beside it, the
/// fields of its payload.
#[verifier::opaque]
pub open spec fn enc_response(m: ResponseModel) -> Seq<u8> {
    let ks = enc_str("status"@);
    let st = enc_str(m.status.spec_text());
    match m.payload {
        Option::None => enc_map_hdr(1) + (ks + st),
        Option::Some(p) => match p {
            PayloadModel::Pong => enc_map_hdr(2) + (ks + (st + (enc_str("pong"@) + seq![
                TAG_TRUE,
            ]))),
            PayloadModel::Tables { tables } => enc_map_hdr(2) + (ks + (st + (enc_str("tables"@)
                + enc_str_array(tables)))),
            PayloadModel::Keys { keys } => enc_map_hdr(2) + (ks + (st + (enc_str("keys"@)
                + enc_str_array(keys)))),
            PayloadModel::Table { table } => enc_map_hdr(2) + (ks + (st + (enc_str("table"@)
                + enc_table_map(table)))),
            PayloadModel::TableValue { table, key, value } => enc_map_hdr(4) + (ks + (st + (
            enc_str("table"@) + (enc_str(table) + (enc_str("key"@) + (enc_str(key) + (enc_str(
                "value"@,
            ) + enc_table_value(value)))))))),
        },
    }
}

/// The single payload field that may follow the status.
#[verifier::opaque]
pub open spec fn dec_resp_payload2(s: Seq<u8>) -> Option<PayloadModel> {
    match dec_str(s) {
        Option::None => Option::None,
        Option::Some((k, c)) => if k == "pong"@ {
            if s.skip(c).len() == 1 && s.skip(c)[0] == TAG_TRUE {
                Option::Some(PayloadModel::Pong)
            } else {
                Option::None
            }
        } else if k == "tables"@ {
            match dec_str_array(s.skip(c)) {
                Option::None => Option::None,
                Option::Some((ts, c2)) => if s.skip(c).skip(c2).len() == 0 {
                    Option::Some(PayloadModel::Tables { tables: ts })
                } else {
                    Option::None
                },
            }
        } else if k == "keys"@ {
            match dec_str_array(s.skip(c)) {
                Option::None => Option::None,
                Option::Some((ks, c2)) => if s.skip(c).skip(c2).len() == 0 {
                    Option::Some(PayloadModel::Keys { keys: ks })
                } else {
                    Option::None
                },
            }
        } else if k == "table"@ {
            match dec_table_map(s.skip(c)) {
                Option::None => Option::None,
                Option::Some((t, c2)) => if s.skip(c).skip(c2).len() == 0 {
                    Option::Some(PayloadModel::Table { table: t })
                } else {
                    Option::None
                },
            }
        } else {
            Option::None
        },
    }
}

/// The single-record payload that may follow the status.
#[verifier::opaque]
pub open spec fn dec_resp_record(s: Seq<u8>) -> Option<PayloadModel> {
    match dec_field_str(s, "table"@) {
        Option::None => Option::None,
        Option::Some((t, c)) => match dec_field_str(s.skip(c), "key"@) {
            Option::None => Option::None,
            Option::Some((k, c2)) => match dec_str(s.skip(c).skip(c2)) {
                Option::None => Option::None,
                Option::Some((kv, c3)) => if kv != "value"@ {
                    Option::None
                } else {
                    match dec_table_value(s.skip(c).skip(c2).skip(c3)) {
                        Option::None => Option::None,
                        Option::Some((v, c4)) => if s.skip(c).skip(c2).skip(c3).skip(c4).len()
                            == 0 {
                            Option::Some(
                                PayloadModel::TableValue { table: t, key: k, value: v },
                            )
                        } else {
                            Option::None
                        },
                    }
                },
            },
        },
    }
}

/// The response decoded from the whole of `s`: trailing bytes are refused.
#[verifier::opaque]
pub open spec fn dec_response(s: Seq<u8>) -> Option<ResponseModel> {
    match dec_map_hdr(s) {
        Option::None => Option::None,
        Option::Some((n, h)) => match dec_field_str(s.skip(h), "status"@) {
            Option::None => Option::None,
            Option::Some((tx, c)) => match status_of_text(tx) {
                Option::None => Option::None,
                Option::Some(st) => if n == 1 {
                    if s.skip(h).skip(c).len() == 0 {
                        Option::Some(ResponseModel { status: st, payload: Option::None })
                    } else {
                        Option::None
                    }
                } else if n == 2 {
                    match dec_resp_payload2(s.skip(h).skip(c)) {
                        Option::None => Option::None,
                        Option::Some(p) => Option::Some(
                            ResponseModel { status: st, payload: Option::Some(p) },
                        ),
                    }
                } else if n == 4 {
                    match dec_resp_record(s.skip(h).skip(c)) {
                        Option::None => Option::None,
                        Option::Some(p) => Option::Some(
                            ResponseModel { status: st, payload: Option::Some(p) },
                        ),
                    }
                } else {
                    Option::None
                },
            },
        },
    }
}


/// Decoding inverts encoding on responses without a payload.
#[verifier::rlimit(100)]
#[verifier::spinoff_prover]
proof fn lemma_rt_resp_none(m: ResponseModel)
    requires
        wf_response(m),
        m.payload is None,
    ensures
        dec_response(enc_response(m)) == Option::Some(m),
{
    reveal(enc_response);
    reveal(dec_response);
    reveal_strlit("status");
    assert(is_ascii_chars("status"@));
    lemma_ascii_wf("status"@);
    lemma_status_text(m.status);
    let e = Seq::<u8>::empty();
    let ks = enc_str("status"@);
    let st = enc_str(m.status.spec_text());
    let s = enc_response(m);
    assert(st + e =~= st);
    lemma_dec_enc_field_str("status"@, m.status.spec_text(), e);
    lemma_dec_enc_map_hdr(1, ks + st);
    lemma_unchain(enc_map_hdr(1), ks + st);
}

/// Decoding inverts encoding on pong responses.
#[verifier::rlimit(100)]
#[verifier::spinoff_prover]
proof fn lemma_rt_resp_pong(m: ResponseModel)
    requires
        wf_response(m),
        m.payload == Option::Some(PayloadModel::Pong),
    ensures
        dec_response(enc_response(m)) == Option::Some(m),
{
    reveal(enc_response);
    reveal(dec_response);
    reveal(dec_resp_payload2);
    reveal_strlit("status");
    reveal_strlit("pong");
    assert(is_ascii_chars("status"@));
    lemma_ascii_wf("status"@);
    assert(is_ascii_chars("pong"@));
    lemma_ascii_wf("pong"@);
    lemma_status_text(m.status);
    let ks = enc_str("status"@);
    let st = enc_str(m.status.spec_text());
    let kp = enc_str("pong"@);
    let tv = seq![TAG_TRUE];
    let s = enc_response(m);
    lemma_dec_enc_field_str("status"@, m.status.spec_text(), kp + tv);
    lemma_dec_enc_str("pong"@, tv);
    lemma_unchain(kp, tv);
    lemma_dec_enc_map_hdr(2, ks + (st + (kp + tv)));
    lemma_unchain(enc_map_hdr(2), ks + (st + (kp + tv)));
}


/// A `tables` field holding a string array is read as a table-list payload.
#[verifier::rlimit(100)]
#[verifier::spinoff_prover]
proof fn lemma_payload2_tables(ts: Seq<Seq<char>>)
    requires
        ts.len() < 0x1_0000_0000,
        forall|i: int| 0 <= i < ts.len() ==> wf_str(#[trigger] ts[i]),
    ensures
        dec_resp_payload2(enc_str("tables"@) + enc_str_array(ts)) == Option::Some(
            PayloadModel::Tables { tables: ts },
        ),
{
    reveal(dec_resp_payload2);
    reveal_strlit("pong");
    reveal_strlit("tables");
    assert("pong"@.len() == 4 && "tables"@.len() == 6);
    assert(is_ascii_chars("tables"@));
    lemma_ascii_wf("tables"@);
    let e = Seq::<u8>::empty();
    let kt = enc_str("tables"@);
    let a = enc_str_array(ts);
    lemma_dec_enc_str("tables"@, a);
    lemma_unchain(kt, a);
    assert(a + e =~= a);
    lemma_dec_enc_str_array(ts, e);
    lemma_unchain(a, e);
}

/// Decoding inverts encoding on table-list responses.
#[verifier::rlimit(100)]
#[verifier::spinoff_prover]
proof fn lemma_rt_resp_tables(m: ResponseModel)
    requires
        wf_response(m),
        m.payload matches Option::Some(p) && p is Tables,
    ensures
        dec_response(enc_response(m)) == Option::Some(m),
{
    reveal(enc_response);
    reveal(dec_response);
    reveal_strlit("status");
    reveal_strlit("tables");
    assert(is_ascii_chars("status"@));
    lemma_ascii_wf("status"@);
    assert(is_ascii_chars("tables"@));
    lemma_ascii_wf("tables"@);
    lemma_status_text(m.status);
    let ks = enc_str("status"@);
    let st = enc_str(m.status.spec_text());
    let kt = enc_str("tables"@);
    let ts = m.payload.unwrap()->Tables_tables;
    let a = enc_str_array(ts);
    let s = enc_response(m);
    lemma_dec_enc_field_str("status"@, m.status.spec_text(), kt + a);
    assert(wf_payload(m.payload.unwrap()));
    assert(m.payload.unwrap() == (PayloadModel::Tables { tables: ts }));
    lemma_payload2_tables(ts);
    lemma_dec_enc_map_hdr(2, ks + (st + (kt + a)));
    lemma_unchain(enc_map_hdr(2), ks + (st + (kt + a)));
}

/// Decoding inverts encoding on key-list responses.
#[verifier::rlimit(100)]
#[verifier::spinoff_prover]
proof fn lemma_rt_resp_keys(m: ResponseModel)
    requires
        wf_response(m),
        m.payload matches Option::Some(p) && p is Keys,
    ensures
        dec_response(enc_response(m)) == Option::Some(m),
{
    reveal(enc_response);
    reveal(dec_response);
    reveal(dec_resp_payload2);
    reveal_strlit("status");
    reveal_strlit("pong");
    reveal_strlit("tables");
    reveal_strlit("keys");
    assert(is_ascii_chars("status"@));
    lemma_ascii_wf("status"@);
    assert(is_ascii_chars("keys"@));
    lemma_ascii_wf("keys"@);
    assert("pong"@.len() == 4 && "tables"@.len() == 6 && "keys"@.len() == 4);
    assert("pong"@[0] == 'p' && "keys"@[0] == 'k');
    lemma_status_text(m.status);
    let e = Seq::<u8>::empty();
    let ks = enc_str("status"@);
    let st = enc_str(m.status.spec_text());
    let kk = enc_str("keys"@);
    let kys = m.payload.unwrap()->Keys_keys;
    let a = enc_str_array(kys);
    let s = enc_response(m);
    lemma_dec_enc_field_str("status"@, m.status.spec_text(), kk + a);
    lemma_dec_enc_str("keys"@, a);
    lemma_unchain(kk, a);
    assert(a + e =~= a);
    lemma_dec_enc_str_array(kys, e);
    lemma_unchain(a, e);
    lemma_dec_enc_map_hdr(2, ks + (st + (kk + a)));
    lemma_unchain(enc_map_hdr(2), ks + (st + (kk + a)));
}

/// Decoding inverts encoding on whole-table responses.
#[verifier::rlimit(100)]
#[verifier::spinoff_prover]
proof fn lemma_rt_resp_table(m: ResponseModel)
    requires
        wf_response(m),
        m.payload matches Option::Some(p) && p is Table,
    ensures
        dec_response(enc_response(m)) == Option::Some(m),
{
    reveal(enc_response);
    reveal(dec_response);
    reveal(dec_resp_payload2);
    reveal_strlit("status");
    reveal_strlit("pong");
    reveal_strlit("tables");
    reveal_strlit("keys");
    reveal_strlit("table");
    assert(is_ascii_chars("status"@));
    lemma_ascii_wf("status"@);
    assert(is_ascii_chars("table"@));
    lemma_ascii_wf("table"@);
    assert("pong"@.len() == 4 && "tables"@.len() == 6 && "keys"@.len() == 4 && "table"@.len()
        == 5);
    lemma_status_text(m.status);
    let e = Seq::<u8>::empty();
    let ks = enc_str("status"@);
    let st = enc_str(m.status.spec_text());
    let kt = enc_str("table"@);
    let tb = m.payload.unwrap()->Table_table;
    let a = enc_table_map(tb);
    let s = enc_response(m);
    lemma_dec_enc_field_str("status"@, m.status.spec_text(), kt + a);
    lemma_dec_enc_str("table"@, a);
    lemma_unchain(kt, a);
    assert(a + e =~= a);
    lemma_dec_enc_table_map(tb, e);
    lemma_unchain(a, e);
    lemma_dec_enc_map_hdr(2, ks + (st + (kt + a)));
    lemma_unchain(enc_map_hdr(2), ks + (st + (kt + a)));
}

/// Decoding inverts encoding on single-record responses.
#[verifier::rlimit(100)]
#[verifier::spinoff_prover]
proof fn lemma_rt_resp_record(m: ResponseModel)
    requires
        wf_response(m),
        m.payload matches Option::Some(p) && p is TableValue,
    ensures
        dec_response(enc_response(m)) == Option::Some(m),
{
    reveal(enc_response);
    reveal(dec_response);
    reveal(dec_resp_record);
    reveal_strlit("status");
    reveal_strlit("table");
    reveal_strlit("key");
    reveal_strlit("value");
    assert(is_ascii_chars("status"@));
    lemma_ascii_wf("status"@);
    assert(is_ascii_chars("table"@));
    lemma_ascii_wf("table"@);
    assert(is_ascii_chars("key"@));
    lemma_ascii_wf("key"@);
    assert(is_ascii_chars("value"@));
    lemma_ascii_wf("value"@);
    lemma_status_text(m.status);
    let e = Seq::<u8>::empty();
    let ks = enc_str("status"@);
    let st = enc_str(m.status.spec_text());
    let p = m.payload.unwrap();
    let t = p->TableValue_table;
    let k = p->TableValue_key;
    let v = p->TableValue_value;
    let ktab = enc_str("table"@);
    let kkey = enc_str("key"@);
    let kval = enc_str("value"@);
    let vv = enc_table_value(v);
    let body = ktab + (enc_str(t) + (kkey + (enc_str(k) + (kval + vv))));
    let s = enc_response(m);
    lemma_dec_enc_field_str("status"@, m.status.spec_text(), body);
    lemma_dec_enc_field_str("table"@, t, kkey + (enc_str(k) + (kval + vv)));
    lemma_dec_enc_field_str("key"@, k, kval + vv);
    lemma_dec_enc_str("value"@, vv);
    lemma_unchain(kval, vv);
    assert(vv + e =~= vv);
    lemma_dec_enc_table_value(v, e);
    lemma_unchain(vv, e);
    lemma_dec_enc_map_hdr(4, ks + (st + body));
    lemma_unchain(enc_map_hdr(4), ks + (st + body));
}

/// Decoding inverts encoding on every well-formed response.
pub proof fn lemma_dec_enc_response(m: ResponseModel)
    requires
        wf_response(m),
    ensures
        dec_response(enc_response(m)) == Option::Some(m),
{
    match m.payload {
        Option::None => lemma_rt_resp_none(m),
        Option::Some(p) => match p {
            PayloadModel::Pong => lemma_rt_resp_pong(m),
            PayloadModel::Tables { .. } => lemma_rt_resp_tables(m),
            PayloadModel::Keys { .. } => lemma_rt_resp_keys(m),
            PayloadModel::Table { .. } => lemma_rt_resp_table(m),
            PayloadModel::TableValue { .. } => lemma_rt_resp_record(m),
        },
    }
}


/// Appends the status field of a response.
fn enc_resp_status(st: &Status, out: &mut Vec<u8>)
    ensures
        final(out)@ == old(out)@ + (enc_str("status"@) + enc_str(st.spec_text())),
{
    proof {
        reveal_strlit("status");
        assert(is_ascii_chars("status"@));
        lemma_ascii_wf("status"@);
        lemma_status_text(*st);
    }
    encode_string("status", out);
    let tx = st.text();
    encode_string(tx, out);
    proof {
        assert(out@ =~= old(out)@ + (enc_str("status"@) + enc_str(st.spec_text())));
    }
}

/// Appends the encoding of a response that carries a status alone.
fn enc_resp_none(st: &Status, out: &mut Vec<u8>)
    ensures
        final(out)@ == old(out)@ + enc_response(
            ResponseModel { status: *st, payload: Option::None },
        ),
{
    proof {
        reveal(enc_response);
    }
    push_map_hdr(out, 1);
    enc_resp_status(st, out);
    proof {
        assert(out@ =~= old(out)@ + enc_response(
            ResponseModel { status: *st, payload: Option::None },
        ));
    }
}

/// Appends the encoding of a pong response.
fn enc_resp_pong(st: &Status, out: &mut Vec<u8>)
    ensures
        final(out)@ == old(out)@ + enc_response(
            ResponseModel { status: *st, payload: Option::Some(PayloadModel::Pong) },
        ),
{
    proof {
        reveal(enc_response);
        reveal_strlit("pong");
        assert(is_ascii_chars("pong"@));
        lemma_ascii_wf("pong"@);
    }
    push_map_hdr(out, 2);
    enc_resp_status(st, out);
    encode_string("pong", out);
    out.push(TAG_TRUE);
    proof {
        assert(out@ =~= old(out)@ + enc_response(
            ResponseModel { status: *st, payload: Option::Some(PayloadModel::Pong) },
        ));
    }
}

/// Appends the encoding of a response that carries an array of names.
#[verifier::rlimit(100)]
#[verifier::spinoff_prover]
fn enc_resp_names(st: &Status, field: &str, names: &Vec<String>, out: &mut Vec<u8>)
    requires
        wf_str(field@),
        names@.len() < 0x1_0000_0000,
        forall|i: int| 0 <= i < names@.len() ==> wf_str(#[trigger] names@[i]@),
    ensures
        final(out)@ == old(out)@ + enc_map_hdr(2) + (enc_str("status"@) + (enc_str(
            st.spec_text(),
        ) + (enc_str(field@) + enc_str_array(strs_model(names@))))),
{
    push_map_hdr(out, 2);
    enc_resp_status(st, out);
    encode_string(field, out);
    encode_str_array(names, out);
    proof {
        assert(out@ =~= old(out)@ + enc_map_hdr(2) + (enc_str("status"@) + (enc_str(
            st.spec_text(),
        ) + (enc_str(field@) + enc_str_array(strs_model(names@))))));
    }
}

/// Appends the encoding of a whole-table response.
#[verifier::rlimit(100)]
#[verifier::spinoff_prover]
fn enc_resp_table(st: &Status, table: &Vec<(String, TableValue)>, out: &mut Vec<u8>)
    requires
        wf_payload(PayloadModel::Table { table: table_pairs_model(table@) }),
    ensures
        final(out)@ == old(out)@ + enc_response(
            ResponseModel {
                status: *st,
                payload: Option::Some(
                    PayloadModel::Table { table: table_pairs_model(table@) },
                ),
            },
        ),
{
    proof {
        reveal(enc_response);
        reveal_strlit("table");
        assert(is_ascii_chars("table"@));
        lemma_ascii_wf("table"@);
        assert forall|i: int| 0 <= i < table@.len() implies wf_str(#[trigger] table@[i].0@)
            && wf_table_value(table@[i].1@) by {
            assert(table_pairs_model(table@)[i] == (table@[i].0@, table@[i].1@));
            assert(wf_str(table_pairs_model(table@)[i].0));
            assert(wf_table_value(table_pairs_model(table@)[i].1));
        }
    }
    push_map_hdr(out, 2);
    enc_resp_status(st, out);
    encode_string("table", out);
    encode_table_map(table, out);
    proof {
        assert(out@ =~= old(out)@ + enc_response(
            ResponseModel {
                status: *st,
                payload: Option::Some(
                    PayloadModel::Table { table: table_pairs_model(table@) },
                ),
            },
        ));
    }
}

/// Appends the encoding of a single-record response.
#[verifier::rlimit(100)]
#[verifier::spinoff_prover]
fn enc_resp_record(st: &Status, table: &String, key: &String, value: &TableValue, out: &mut Vec<
    u8,
>)
    requires
        wf_str(table@),
        wf_str(key@),
        wf_table_value(value@),
    ensures
        final(out)@ == old(out)@ + enc_response(
            ResponseModel {
                status: *st,
                payload: Option::Some(
                    PayloadModel::TableValue { table: table@, key: key@, value: value@ },
                ),
            },
        ),
{
    proof {
        reveal(enc_response);
        reveal_strlit("table");
        reveal_strlit("key");
        reveal_strlit("value");
        assert(is_ascii_chars("table"@));
        lemma_ascii_wf("table"@);
        assert(is_ascii_chars("key"@));
        lemma_ascii_wf("key"@);
        assert(is_ascii_chars("value"@));
        lemma_ascii_wf("value"@);
    }
    push_map_hdr(out, 4);
    enc_resp_status(st, out);
    encode_string("table", out);
    encode_string(table.as_str(), out);
    encode_string("key", out);
    encode_string(key.as_str(), out);
    encode_string("value", out);
    encode_table_value(value, out);
    proof {
        assert(out@ =~= old(out)@ + enc_response(
            ResponseModel {
                status: *st,
                payload: Option::Some(
                    PayloadModel::TableValue { table: table@, key: key@, value: value@ },
                ),
            },
        ));
    }
}

/// Appends the encoding of a response.
pub fn encode_response(res: &Response, out: &mut Vec<u8>)
    requires
        wf_response(res@),
    ensures
        final(out)@ == old(out)@ + enc_response(res@),
{
    match &res.payload {
        Option::None => enc_resp_none(&res.status, out),
        Option::Some(p) => match p {
            Payload::Pong => enc_resp_pong(&res.status, out),
            Payload::Tables { tables } => {
                proof {
                    reveal(enc_response);
                    reveal_strlit("tables");
                    assert(is_ascii_chars("tables"@));
                    lemma_ascii_wf("tables"@);
                    assert forall|i: int| 0 <= i < tables@.len() implies wf_str(
                        #[trigger] tables@[i]@,
                    ) by {
                        assert(wf_str(strs_model(tables@)[i]));
                    }
                }
                enc_resp_names(&res.status, "tables", tables, out);
            },
            Payload::Keys { keys } => {
                proof {
                    reveal(enc_response);
                    reveal_strlit("keys");
                    assert(is_ascii_chars("keys"@));
                    lemma_ascii_wf("keys"@);
                    assert forall|i: int| 0 <= i < keys@.len() implies wf_str(
                        #[trigger] keys@[i]@,
                    ) by {
                        assert(wf_str(strs_model(keys@)[i]));
                    }
                }
                enc_resp_names(&res.status, "keys", keys, out);
            },
            Payload::Table { table } => enc_resp_table(&res.status, table, out),
            Payload::TableValue { table, key, value } => enc_resp_record(
                &res.status,
                table,
                key,
                value,
                out,
            ),
        },
    }
}

/// Reads the single payload field that may follow the status.
#[verifier::rlimit(100)]
#[verifier::spinoff_prover]
fn dx_payload2(s: &Vec<u8>, pos: usize) -> (r: Option<Payload>)
    requires
        pos <= s.len(),
    ensures
        match r {
            Option::Some(p) => dec_resp_payload2(s@.skip(pos as int)) == Option::Some(p@)
                && wf_payload(p@),
            Option::None => dec_resp_payload2(s@.skip(pos as int)) is None,
        },
{
    proof {
        reveal(dec_resp_payload2);
    }
    let (k, c) = match decode_string(s, pos) {
        Option::None => {
            return Option::None;
        },
        Option::Some(x) => x,
    };
    proof {
        lemma_skip_skip(s@, pos as int, c as int);
    }
    if str_eq(k.as_str(), "pong") {
        if s.len() - (pos + c) == 1 && s[pos + c] == TAG_TRUE {
            proof {
                assert(s@.skip(pos as int).skip(c as int)[0] == s@[pos + c]);
            }
            Option::Some(Payload::Pong)
        } else {
            Option::None
        }
    } else if str_eq(k.as_str(), "tables") {
        match decode_str_array(s, pos + c) {
            Option::None => Option::None,
            Option::Some((ts, c2)) => {
                proof {
                    lemma_skip_skip(s@, pos + c, c2 as int);
                    assert forall|i: int| 0 <= i < strs_model(ts@).len() implies wf_str(
                        #[trigger] strs_model(ts@)[i],
                    ) by {
                        assert(strs_model(ts@)[i] == ts@[i]@);
                    }
                }
                if pos + c + c2 == s.len() {
                    Option::Some(Payload::Tables { tables: ts })
                } else {
                    Option::None
                }
            },
        }
    } else if str_eq(k.as_str(), "keys") {
        match decode_str_array(s, pos + c) {
            Option::None => Option::None,
            Option::Some((ks, c2)) => {
                proof {
                    lemma_skip_skip(s@, pos + c, c2 as int);
                    assert forall|i: int| 0 <= i < strs_model(ks@).len() implies wf_str(
                        #[trigger] strs_model(ks@)[i],
                    ) by {
                        assert(strs_model(ks@)[i] == ks@[i]@);
                    }
                }
                if pos + c + c2 == s.len() {
                    Option::Some(Payload::Keys { keys: ks })
                } else {
                    Option::None
                }
            },
        }
    } else if str_eq(k.as_str(), "table") {
        match decode_table_map(s, pos + c) {
            Option::None => Option::None,
            Option::Some((t, c2)) => {
                proof {
                    lemma_skip_skip(s@, pos + c, c2 as int);
                    assert forall|i: int| 0 <= i < table_pairs_model(t@).len() implies wf_str(
                        #[trigger] table_pairs_model(t@)[i].0,
                    ) && wf_table_value(table_pairs_model(t@)[i].1) by {
                        assert(table_pairs_model(t@)[i] == (t@[i].0@, t@[i].1@));
                    }
                }
                if pos + c + c2 == s.len() {
                    Option::Some(Payload::Table { table: t })
                } else {
                    Option::None
                }
            },
        }
    } else {
        Option::None
    }
}

/// Reads the single-record payload that may follow the status.
#[verifier::rlimit(100)]
#[verifier::spinoff_prover]
fn dx_record(s: &Vec<u8>, pos: usize) -> (r: Option<Payload>)
    requires
        pos <= s.len(),
    ensures
        match r {
            Option::Some(p) => dec_resp_record(s@.skip(pos as int)) == Option::Some(p@)
                && wf_payload(p@),
            Option::None => dec_resp_record(s@.skip(pos as int)) is None,
        },
{
    proof {
        reveal(dec_resp_record);
    }
    let (t, c) = match decode_field_str(s, pos, "table") {
        Option::None => {
            return Option::None;
        },
        Option::Some(x) => x,
    };
    proof {
        lemma_skip_skip(s@, pos as int, c as int);
    }
    let (k, c2) = match decode_field_str(s, pos + c, "key") {
        Option::None => {
            return Option::None;
        },
        Option::Some(x) => x,
    };
    proof {
        lemma_skip_skip(s@, pos + c, c2 as int);
    }
    let (kv, c3) = match decode_string(s, pos + c + c2) {
        Option::None => {
            return Option::None;
        },
        Option::Some(x) => x,
    };
    if !str_eq(kv.as_str(), "value") {
        return Option::None;
    }
    proof {
        lemma_skip_skip(s@, pos + c + c2, c3 as int);
    }
    let (v, c4) = match decode_table_value(s, pos + c + c2 + c3) {
        Option::None => {
            return Option::None;
        },
        Option::Some(x) => x,
    };
    proof {
        lemma_skip_skip(s@, pos + c + c2 + c3, c4 as int);
    }
    if pos + c + c2 + c3 + c4 == s.len() {
        Option::Some(Payload::TableValue { table: t, key: k, value: v })
    } else {
        Option::None
    }
}

/// Reads a whole response from `s`: trailing bytes are refused, and what it
/// returns follows the decoder model exactly.
#[verifier::rlimit(100)]
#[verifier::spinoff_prover]
pub fn decode_response(s: &Vec<u8>) -> (r: Option<Response>)
    ensures
        match r {
            Option::Some(res) => dec_response(s@) == Option::Some(res@) && wf_response(res@),
            Option::None => dec_response(s@) is None,
        },
{
    proof {
        reveal(dec_response);
        assert(s@.skip(0) =~= s@);
    }
    let (n, hl) = match read_map_hdr(s, 0) {
        Option::None => {
            return Option::None;
        },
        Option::Some(x) => x,
    };
    let (tx, c) = match decode_field_str(s, hl, "status") {
        Option::None => {
            return Option::None;
        },
        Option::Some(x) => x,
    };
    proof {
        lemma_skip_skip(s@, hl as int, c as int);
    }
    let st = match status_from_text(tx.as_str()) {
        Option::None => {
            return Option::None;
        },
        Option::Some(x) => x,
    };
    let base = hl + c;
    if n == 1 {
        if base == s.len() {
            Option::Some(Response { status: st, payload: Option::None })
        } else {
            Option::None
        }
    } else if n == 2 {
        match dx_payload2(s, base) {
            Option::None => Option::None,
            Option::Some(p) => Option::Some(Response { status: st, payload: Option::Some(p) }),
        }
    } else if n == 4 {
        match dx_record(s, base) {
            Option::None => Option::None,
            Option::Some(p) => Option::Some(Response { status: st, payload: Option::Some(p) }),
        }
    } else {
        Option::None
    }
}

} // verus!
