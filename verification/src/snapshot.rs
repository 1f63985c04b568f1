//! Snapshot persistence: the whole database as one byte image — a map from
//! table name to table map — written on the autosave timer and at shutdown,
//! read back at startup. File reads and writes stay outside; this module
//! owns the bytes.

use crate::bytes::lemma_skip_skip;
use crate::msgpack::{dec_str, decode_string, enc_str, encode_string, lemma_dec_enc_str};
use crate::protocol::{table_pairs_model, wf_str};
use crate::store::{Store, Table, pairs_map};
use crate::value::TableValueModel;
use crate::wire::{
    dec_map_hdr, dec_table_map, decode_table_map, enc_map_hdr, enc_table_map, encode_table_map,
    lemma_dec_enc_map_hdr, lemma_dec_enc_table_map, lemma_dec_table_map_bounds, lemma_unchain,
    push_map_hdr, read_map_hdr,
};
use vstd::prelude::*;

verus! {

broadcast use vstd::std_specs::vec::group_vec_axioms;

/// The image model of a database: each table's name with its pair sequence.
pub open spec fn db_model(xs: Seq<(String, Table)>) -> Seq<
    (Seq<char>, Seq<(Seq<char>, TableValueModel)>),
> {
    Seq::new(xs.len(), |i: int| (xs[i].0@, xs[i].1.spec_pairs()))
}

/// The encodings of a sequence of name/table entries, one after the other.
pub open spec fn enc_db_pairs(xs: Seq<(Seq<char>, Seq<(Seq<char>, TableValueModel)>)>) -> Seq<u8>
    decreases xs,
{
    if xs.len() == 0 {
        Seq::empty()
    } else {
        enc_str(xs[0].0) + enc_table_map(xs[0].1) + enc_db_pairs(xs.subrange(1, xs.len() as int))
    }
}

/// The encoding of a whole database image.
pub open spec fn enc_database(xs: Seq<(Seq<char>, Seq<(Seq<char>, TableValueModel)>)>) -> Seq<
    u8,
> {
    enc_map_hdr(xs.len() as u32) + enc_db_pairs(xs)
}

/// The `n` name/table entries decoded one after the other at the head of
/// `s`. A table too large to live in the store is refused.
pub open spec fn dec_db_pairs(s: Seq<u8>, n: int) -> Option<
    (Seq<(Seq<char>, Seq<(Seq<char>, TableValueModel)>)>, int),
>
    decreases n,
{
    if n <= 0 {
        Option::Some((Seq::empty(), 0))
    } else {
        match dec_str(s) {
            Option::None => Option::None,
            Option::Some((k, c)) => if 1 <= c <= s.len() {
                match dec_table_map(s.skip(c)) {
                    Option::None => Option::None,
                    Option::Some((t, c2)) => if 1 <= c2 <= s.skip(c).len() && t.len()
                        < 0xffff_ffff {
                        match dec_db_pairs(s.skip(c).skip(c2), n - 1) {
                            Option::None => Option::None,
                            Option::Some((rs, c3)) => Option::Some((seq![(k, t)] + rs, c + c2 + c3)),
                        }
                    } else {
                        Option::None
                    },
                }
            } else {
                Option::None
            },
        }
    }
}

/// The database image decoded from the whole of `s`: trailing bytes are
/// refused.
pub open spec fn dec_database(s: Seq<u8>) -> Option<
    Seq<(Seq<char>, Seq<(Seq<char>, TableValueModel)>)>,
> {
    match dec_map_hdr(s) {
        Option::None => Option::None,
        Option::Some((n, h)) => match dec_db_pairs(s.skip(h), n) {
            Option::None => Option::None,
            Option::Some((xs, c)) => if s.skip(h).skip(c).len() == 0 {
                Option::Some(xs)
            } else {
                Option::None
            },
        },
    }
}

/// Decoding inverts encoding on name/table entry sequences.
pub proof fn lemma_dec_enc_db_pairs(
    xs: Seq<(Seq<char>, Seq<(Seq<char>, TableValueModel)>)>,
    rest: Seq<u8>,
)
    requires
        forall|i: int|
            0 <= i < xs.len() ==> wf_str((#[trigger] xs[i]).0) && xs[i].1.len() < 0xffff_ffff
                && (forall|j: int|
                0 <= j < xs[i].1.len() ==> wf_str((#[trigger] xs[i].1[j]).0)
                    && crate::value::wf_table_value(xs[i].1[j].1)),
    ensures
        dec_db_pairs(enc_db_pairs(xs) + rest, xs.len() as int) == Option::Some(
            (xs, enc_db_pairs(xs).len() as int),
        ),
    decreases xs.len(),
{
    if xs.len() == 0 {
        assert(enc_db_pairs(xs) + rest =~= rest);
        assert(Seq::<(Seq<char>, Seq<(Seq<char>, TableValueModel)>)>::empty() =~= xs);
    } else {
        let s = enc_db_pairs(xs) + rest;
        let k0 = xs[0].0;
        let t0 = xs[0].1;
        let tail = xs.subrange(1, xs.len() as int);
        assert(s =~= enc_str(k0) + (enc_table_map(t0) + (enc_db_pairs(tail) + rest)));
        lemma_dec_enc_str(k0, enc_table_map(t0) + (enc_db_pairs(tail) + rest));
        lemma_unchain(enc_str(k0), enc_table_map(t0) + (enc_db_pairs(tail) + rest));
        lemma_dec_enc_table_map(t0, enc_db_pairs(tail) + rest);
        lemma_dec_table_map_bounds(enc_table_map(t0) + (enc_db_pairs(tail) + rest));
        lemma_unchain(enc_table_map(t0), enc_db_pairs(tail) + rest);
        lemma_dec_enc_db_pairs(tail, rest);
        assert(seq![(k0, t0)] + tail =~= xs);
    }
}

/// Decoding inverts encoding on whole database images.
pub proof fn lemma_dec_enc_database(xs: Seq<(Seq<char>, Seq<(Seq<char>, TableValueModel)>)>)
    requires
        xs.len() < 0x1_0000_0000,
        forall|i: int|
            0 <= i < xs.len() ==> wf_str((#[trigger] xs[i]).0) && xs[i].1.len() < 0xffff_ffff
                && (forall|j: int|
                0 <= j < xs[i].1.len() ==> wf_str((#[trigger] xs[i].1[j]).0)
                    && crate::value::wf_table_value(xs[i].1[j].1)),
    ensures
        dec_database(enc_database(xs)) == Option::Some(xs),
{
    let n32 = xs.len() as u32;
    let e = Seq::<u8>::empty();
    assert(enc_database(xs) =~= enc_map_hdr(n32) + (enc_db_pairs(xs) + e));
    lemma_dec_enc_map_hdr(n32, enc_db_pairs(xs) + e);
    lemma_unchain(enc_map_hdr(n32), enc_db_pairs(xs) + e);
    assert(enc_db_pairs(xs) + e =~= enc_db_pairs(xs));
    lemma_dec_enc_db_pairs(xs, e);
    lemma_unchain(enc_db_pairs(xs), e);
}

/// Appending one more name/table entry appends its encoding.
pub proof fn lemma_enc_db_pairs_snoc(
    xs: Seq<(Seq<char>, Seq<(Seq<char>, TableValueModel)>)>,
    k: Seq<char>,
    t: Seq<(Seq<char>, TableValueModel)>,
)
    ensures
        enc_db_pairs(xs.push((k, t))) == enc_db_pairs(xs) + enc_str(k) + enc_table_map(t),
    decreases xs.len(),
{
    if xs.len() == 0 {
        reveal_with_fuel(enc_db_pairs, 2);
        assert(xs.push((k, t))[0] == (k, t));
        assert(xs.push((k, t)).subrange(1, 1) =~= Seq::<
            (Seq<char>, Seq<(Seq<char>, TableValueModel)>),
        >::empty());
        assert(enc_db_pairs(xs.push((k, t))) =~= enc_db_pairs(xs) + enc_str(k) + enc_table_map(t));
    } else {
        let ys = xs.push((k, t));
        assert(ys[0] == xs[0]);
        assert(ys.subrange(1, ys.len() as int) =~= xs.subrange(1, xs.len() as int).push((k, t)));
        lemma_enc_db_pairs_snoc(xs.subrange(1, xs.len() as int), k, t);
        assert(enc_db_pairs(ys) =~= enc_db_pairs(xs) + enc_str(k) + enc_table_map(t));
    }
}

/// Whether a snapshot's entries can stand in the store: boundedly many
/// tables, wire-sized names, well-formed tables.
pub open spec fn wf_image(xs: Seq<(String, Table)>) -> bool {
    &&& xs.len() < 0xffff_ffff
    &&& forall|i: int|
        0 <= i < xs.len() ==> wf_str((#[trigger] xs[i]).0@) && xs[i].1.wf()
            && xs[i].1.spec_pairs().len() < 0xffff_ffff
}

/// Appends the encoding of a database image.
#[verifier::rlimit(100)]
#[verifier::spinoff_prover]
pub fn encode_database(tables: &Vec<(String, Table)>, out: &mut Vec<u8>)
    requires
        wf_image(tables@),
    ensures
        final(out)@ == old(out)@ + enc_database(db_model(tables@)),
{
    push_map_hdr(out, tables.len() as u32);
    let mut i: usize = 0;
    while i < tables.len()
        invariant
            i <= tables@.len(),
            wf_image(tables@),
            out@ == old(out)@ + enc_map_hdr(tables@.len() as u32) + enc_db_pairs(
                db_model(tables@.subrange(0, i as int)),
            ),
        decreases tables@.len() - i,
    {
        proof {
            assert(db_model(tables@)[i as int] == (tables@[i as int].0@,
            tables@[i as int].1.spec_pairs()));
        }
        encode_string(tables[i].0.as_str(), out);
        let ps = tables[i].1.snapshot_pairs();
        proof {
            assert forall|j: int| 0 <= j < ps@.len() implies wf_str((#[trigger] ps@[j]).0@)
                && crate::value::wf_table_value(ps@[j].1@) by {
                assert(table_pairs_model(ps@)[j] == (ps@[j].0@, ps@[j].1@));
                assert(wf_str(table_pairs_model(ps@)[j].0));
                assert(crate::value::wf_table_value(table_pairs_model(ps@)[j].1));
            }
        }
        encode_table_map(&ps, out);
        proof {
            assert(db_model(tables@.subrange(0, i + 1)) =~= db_model(
                tables@.subrange(0, i as int),
            ).push((tables@[i as int].0@, tables@[i as int].1.spec_pairs())));
            lemma_enc_db_pairs_snoc(
                db_model(tables@.subrange(0, i as int)),
                tables@[i as int].0@,
                tables@[i as int].1.spec_pairs(),
            );
            assert(out@ =~= old(out)@ + enc_map_hdr(tables@.len() as u32) + enc_db_pairs(
                db_model(tables@.subrange(0, i + 1)),
            ));
        }
        i = i + 1;
    }
    proof {
        assert(tables@.subrange(0, tables@.len() as int) =~= tables@);
        assert(out@ =~= old(out)@ + enc_database(db_model(tables@)));
    }
}

/// Reads the `n` name/table entries encoded one after the other at `pos`,
/// each table rebuilt so that a later duplicate key wins.
#[verifier::rlimit(100)]
#[verifier::spinoff_prover]
pub fn decode_db_pairs(s: &Vec<u8>, pos: usize, n: u32) -> (r: Option<(Vec<(String, Table)>, usize)>)
    requires
        pos <= s.len(),
    ensures
        r is Some ==> (dec_db_pairs(s@.skip(pos as int), n as int) matches Option::Some(m)
            && m.1 == r->Some_0.1 as int && m.0.len() == r->Some_0.0@.len() && (forall|i: int|
            0 <= i < m.0.len() ==> (#[trigger] r->Some_0.0@[i]).0@ == m.0[i].0
                && r->Some_0.0@[i].1@ == pairs_map(m.0[i].1))),
        r is Some ==> pos + r->Some_0.1 <= s.len() && r->Some_0.0@.len() == n && (forall|i: int|
            0 <= i < r->Some_0.0@.len() ==> wf_str((#[trigger] r->Some_0.0@[i]).0@)
                && r->Some_0.0@[i].1.wf() && r->Some_0.0@[i].1.spec_pairs().len() < 0xffff_ffff),
        r is None ==> dec_db_pairs(s@.skip(pos as int), n as int) is None,
    decreases n,
{
    let ghost sk = s@.skip(pos as int);
    if n == 0 {
        let out: Vec<(String, Table)> = Vec::new();
        return Option::Some((out, 0));
    }
    let (k, c) = match decode_string(s, pos) {
        Option::None => {
            return Option::None;
        },
        Option::Some(kc) => kc,
    };
    proof {
        lemma_skip_skip(s@, pos as int, c as int);
    }
    let (ps, c2) = match decode_table_map(s, pos + c) {
        Option::None => {
            return Option::None;
        },
        Option::Some(tc) => tc,
    };
    proof {
        lemma_dec_table_map_bounds(s@.skip(pos + c));
        lemma_skip_skip(s@, pos + c, c2 as int);
    }
    if ps.len() >= 0xffff_ffff {
        return Option::None;
    }
    let t = Table::from_pairs(ps);
    match decode_db_pairs(s, pos + c + c2, n - 1) {
        Option::None => Option::None,
        Option::Some((vs, c3)) => {
            let mut out = vs;
            out.insert(0, (k, t));
            proof {
                assert(out@.subrange(1, out@.len() as int) =~= vs@);
            }
            Option::Some((out, c + c2 + c3))
        },
    }
}

/// Reads a whole database image from `s`: trailing bytes are refused, and
/// each table comes back spelling the mapping it was saved with.
#[verifier::rlimit(100)]
#[verifier::spinoff_prover]
pub fn decode_database(s: &Vec<u8>) -> (r: Option<Vec<(String, Table)>>)
    ensures
        r is Some ==> (dec_database(s@) matches Option::Some(m) && m.len() == r->Some_0@.len()
            && (forall|i: int|
            0 <= i < m.len() ==> (#[trigger] r->Some_0@[i]).0@ == m[i].0 && r->Some_0@[i].1@
                == pairs_map(m[i].1))),
        r is Some ==> forall|i: int|
            0 <= i < r->Some_0@.len() ==> wf_str((#[trigger] r->Some_0@[i]).0@)
                && r->Some_0@[i].1.wf() && r->Some_0@[i].1.spec_pairs().len() < 0xffff_ffff,
        r is None ==> dec_database(s@) is None,
{
    proof {
        assert(s@.skip(0) =~= s@);
    }
    let (n, hl) = match read_map_hdr(s, 0) {
        Option::None => {
            return Option::None;
        },
        Option::Some(x) => x,
    };
    match decode_db_pairs(s, hl, n) {
        Option::None => Option::None,
        Option::Some((ts, c)) => {
            proof {
                lemma_skip_skip(s@, hl as int, c as int);
            }
            if hl + c == s.len() {
                Option::Some(ts)
            } else {
                Option::None
            }
        },
    }
}


/// An image spells a database: distinct names covering exactly its tables,
/// each with the pairs of its mapping.
pub open spec fn image_of(
    m: Seq<(Seq<char>, Seq<(Seq<char>, TableValueModel)>)>,
    db: Map<Seq<char>, Map<Seq<char>, TableValueModel>>,
) -> bool {
    &&& forall|i: int|
        0 <= i < m.len() ==> db.contains_key((#[trigger] m[i]).0) && pairs_map(m[i].1)
            == db.index(m[i].0)
    &&& forall|n: Seq<char>| db.contains_key(n) ==> exists|i: int|
        0 <= i < m.len() && (#[trigger] m[i]).0 == n
    &&& forall|i: int, j: int| 0 <= i < j < m.len() ==> m[i].0 != m[j].0
}

/// Serializes the whole store into one byte image that decodes back to
/// exactly the database it holds right now.
pub fn save_image(store: &Store) -> (r: Vec<u8>)
    requires
        store.wf(),
    ensures
        dec_database(r@) matches Option::Some(m) && image_of(m, store.db()) && m.len()
            == store.tables().dom().len(),
{
    let ts = store.snapshot_tables();
    let mut bytes: Vec<u8> = Vec::new();
    encode_database(&ts, &mut bytes);
    proof {
        assert forall|i: int| 0 <= i < db_model(ts@).len() implies wf_str(
            (#[trigger] db_model(ts@)[i]).0,
        ) && db_model(ts@)[i].1.len() < 0xffff_ffff && (forall|j: int|
            0 <= j < db_model(ts@)[i].1.len() ==> wf_str((#[trigger] db_model(ts@)[i].1[j]).0)
                && crate::value::wf_table_value(db_model(ts@)[i].1[j].1)) by {
            assert(db_model(ts@)[i] == (ts@[i].0@, ts@[i].1.spec_pairs()));
            crate::store::lemma_table_wf_pairs(ts@[i].1);
        }
        lemma_dec_enc_database(db_model(ts@));
        assert forall|i: int| 0 <= i < db_model(ts@).len() implies store.db().contains_key(
            (#[trigger] db_model(ts@)[i]).0,
        ) && pairs_map(db_model(ts@)[i].1) == store.db()[db_model(ts@)[i].0] by {
            assert(db_model(ts@)[i] == (ts@[i].0@, ts@[i].1.spec_pairs()));
            crate::store::lemma_table_view_pairs(ts@[i].1);
            assert(ts@[i].1@ == store.tables()[ts@[i].0@]@);
            crate::store::lemma_table_view_pairs(store.tables()[ts@[i].0@]);
            assert(store.db()[ts@[i].0@] == store.tables()[ts@[i].0@]@);
        }
        assert forall|n: Seq<char>| store.db().contains_key(n) implies exists|i: int|
            0 <= i < db_model(ts@).len() && (#[trigger] db_model(ts@)[i]).0 == n by {
            let i = choose|i: int| 0 <= i < ts@.len() && (#[trigger] ts@[i]).0@ == n;
            assert(db_model(ts@)[i].0 == n);
        }
        assert forall|i: int, j: int| 0 <= i < j < db_model(ts@).len() implies db_model(
            ts@,
        )[i].0 != db_model(ts@)[j].0 by {
            assert(ts@[i].0@ != ts@[j].0@);
        }
    }
    bytes
}

/// Reads a byte image back into a store. A corrupt image is refused; a
/// well-formed image with distinct table names comes back spelling exactly
/// the database it encodes.
pub fn load_image(bytes: &Vec<u8>) -> (r: Option<Store>)
    ensures
        r is None ==> dec_database(bytes@) is None || (dec_database(bytes@) matches Option::Some(
            m,
        ) && (m.len() >= 0xffff_fffe || exists|i: int, j: int|
            0 <= i < j < m.len() && (#[trigger] m[i]).0 == (#[trigger] m[j]).0)),
        r matches Option::Some(st) ==> st.wf() && (dec_database(bytes@) matches Option::Some(m)
            && ((forall|i: int, j: int| 0 <= i < j < m.len() ==> m[i].0 != m[j].0) ==> image_of(
            m,
            st.db(),
        ))),
{
    let ts = match decode_database(bytes) {
        Option::None => {
            return Option::None;
        },
        Option::Some(x) => x,
    };
    if ts.len() >= 0xffff_fffe {
        return Option::None;
    }
    let ghost m = dec_database(bytes@).unwrap();
    if ts.len() >= 1 {
        // Reject duplicate table names: a fresh save never writes them.
        let mut i: usize = 1;
        while i < ts.len()
            invariant
                1 <= i <= ts@.len(),
                m.len() == ts@.len(),
                dec_database(bytes@) == Option::Some(m),
                forall|k: int| 0 <= k < m.len() ==> (#[trigger] ts@[k]).0@ == m[k].0,
                forall|a: int, b: int| 0 <= a < b < i ==> m[a].0 != m[b].0,
            decreases ts@.len() - i,
        {
            let mut j: usize = 0;
            while j < i
                invariant
                    0 <= j <= i < ts@.len(),
                    m.len() == ts@.len(),
                    dec_database(bytes@) == Option::Some(m),
                    forall|k: int| 0 <= k < m.len() ==> (#[trigger] ts@[k]).0@ == m[k].0,
                    forall|a: int, b: int| 0 <= a < b < i ==> m[a].0 != m[b].0,
                    forall|a: int| 0 <= a < j ==> m[a].0 != m[i as int].0,
                decreases i - j,
            {
                if crate::wire::str_eq(ts[j].0.as_str(), ts[i].0.as_str()) {
                    return Option::None;
                }
                j = j + 1;
            }
            i = i + 1;
        }
    }
    let st = Store::from_tables(ts);
    proof {
        assert forall|idx: int| 0 <= idx < m.len() implies st.db().contains_key(
            (#[trigger] m[idx]).0,
        ) && pairs_map(m[idx].1) == st.db()[m[idx].0] by {
            assert((#[trigger] ts@[idx]).0@ == m[idx].0);
            assert(ts@[idx].1@ == pairs_map(m[idx].1));
            assert(st.db().index(ts@[idx].0@) == ts@[idx].1@);
        }
        assert forall|n: Seq<char>| st.db().contains_key(n) implies exists|idx: int|
            0 <= idx < m.len() && (#[trigger] m[idx]).0 == n by {
            let k = choose|k: int| 0 <= k < ts@.len() && (#[trigger] ts@[k]).0@ == n;
            assert(m[k].0 == n);
        }
    }
    Option::Some(st)
}

/// Saving the store and loading the image back yields a store that spells
/// the same database, table for table and record for record.
pub fn image_roundtrip(store: &Store) -> (r: Store)
    requires
        store.wf(),
        store.tables().dom().len() < 0xffff_fffe,
    ensures
        r.wf(),
        r.db() == store.db(),
{
    let bytes = save_image(store);
    let r = match load_image(&bytes) {
        Option::Some(st) => st,
        Option::None => {
            proof {
                assert(false);
            }
            Store::new()
        },
    };
    proof {
        let m = dec_database(bytes@).unwrap();
        assert(r.db() =~= store.db()) by {
            assert forall|n: Seq<char>|
                r.db().contains_key(n) <==> store.db().contains_key(n) by {}
            assert forall|n: Seq<char>| r.db().contains_key(n) implies r.db().index(n)
                == store.db().index(n) by {
                let i = choose|i: int| 0 <= i < m.len() && (#[trigger] m[i]).0 == n;
            }
        }
    }
    r
}

} // verus!
