//! The two-level store: a verified table of key/record pairs with lazy
//! expiry, held under its name in a concurrent map shared by every
//! connection.

use crate::protocol::{table_pairs_model, wf_str};
use crate::value::{TableValue, TableValueModel, wf_table_value};
use std::collections::hash_map::RandomState;
use vstd::prelude::*;

verus! {

broadcast use vstd::std_specs::vec::group_vec_axioms;

/// The mapping spelled by a sequence of key/record pairs; a later pair with
/// the same key wins.
pub open spec fn pairs_map(ps: Seq<(Seq<char>, TableValueModel)>) -> Map<
    Seq<char>,
    TableValueModel,
>
    decreases ps.len(),
{
    if ps.len() == 0 {
        Map::empty()
    } else {
        pairs_map(ps.drop_last()).insert(ps.last().0, ps.last().1)
    }
}

/// No two pairs share a key.
pub open spec fn distinct_keys(ps: Seq<(Seq<char>, TableValueModel)>) -> bool {
    forall|i: int, j: int| 0 <= i < j < ps.len() ==> ps[i].0 != ps[j].0
}

/// A key is in the mapping exactly when some pair holds it.
pub proof fn lemma_pairs_map_contains(ps: Seq<(Seq<char>, TableValueModel)>, k: Seq<char>)
    ensures
        pairs_map(ps).contains_key(k) <==> (exists|i: int|
            0 <= i < ps.len() && #[trigger] ps[i].0 == k),
    decreases ps.len(),
{
    if ps.len() > 0 {
        lemma_pairs_map_contains(ps.drop_last(), k);
        if pairs_map(ps).contains_key(k) && ps.last().0 != k {
            let i = choose|i: int| 0 <= i < ps.drop_last().len() && #[trigger] ps.drop_last()[i].0
                == k;
            assert(ps[i].0 == k);
        }
        if exists|i: int| 0 <= i < ps.len() && #[trigger] ps[i].0 == k {
            let i = choose|i: int| 0 <= i < ps.len() && #[trigger] ps[i].0 == k;
            if i < ps.len() - 1 {
                assert(ps.drop_last()[i].0 == k);
            }
        }
    }
}

/// With distinct keys, the pair holding a key gives its mapped record.
pub proof fn lemma_pairs_map_get(ps: Seq<(Seq<char>, TableValueModel)>, i: int)
    requires
        distinct_keys(ps),
        0 <= i < ps.len(),
    ensures
        pairs_map(ps).contains_key(ps[i].0),
        pairs_map(ps)[ps[i].0] == ps[i].1,
    decreases ps.len(),
{
    lemma_pairs_map_contains(ps, ps[i].0);
    if i < ps.len() - 1 {
        assert(ps.drop_last()[i] == ps[i]);
        lemma_pairs_map_get(ps.drop_last(), i);
        assert(ps.last().0 != ps[i].0);
    }
}

/// Dropping the pair that holds a key removes the key from the mapping.
pub proof fn lemma_pairs_map_remove_at(ps: Seq<(Seq<char>, TableValueModel)>, i: int)
    requires
        distinct_keys(ps),
        0 <= i < ps.len(),
    ensures
        distinct_keys(ps.remove(i)),
        pairs_map(ps.remove(i)) =~= pairs_map(ps).remove(ps[i].0),
    decreases ps.len(),
{
    let k = ps[i].0;
    lemma_pairs_map_contains(ps, k);
    if i == ps.len() - 1 {
        assert(ps.remove(i) =~= ps.drop_last());
        lemma_pairs_map_contains(ps.drop_last(), k);
        assert(!pairs_map(ps.drop_last()).contains_key(k)) by {
            if pairs_map(ps.drop_last()).contains_key(k) {
                let j = choose|j: int|
                    0 <= j < ps.drop_last().len() && #[trigger] ps.drop_last()[j].0 == k;
                assert(ps[j].0 == k);
            }
        }
        assert(pairs_map(ps.drop_last()) =~= pairs_map(ps).remove(k));
    } else {
        let dl = ps.drop_last();
        let last = ps.last();
        assert(ps.remove(i) =~= dl.remove(i).push(last));
        assert forall|a: int, b: int| 0 <= a < b < dl.len() implies #[trigger] dl[a].0
            != #[trigger] dl[b].0 by {
            assert(ps[a].0 != ps[b].0);
        }
        lemma_pairs_map_remove_at(dl, i);
        assert(dl[i] == ps[i]);
        assert(pairs_map(ps.remove(i)) == pairs_map(dl.remove(i).push(last)));
        assert(dl.remove(i).push(last).drop_last() =~= dl.remove(i));
        assert(dl.remove(i).push(last).last() == last);
        assert(last.0 != k);
        assert(pairs_map(ps.remove(i)) =~= pairs_map(ps).remove(k));
    }
}

/// A named table: a mapping from string key to stored record, with lazy
/// expiry applied whenever a key is observed.
#[derive(Debug)]
pub struct Table {
    entries: Vec<(String, TableValue)>,
}

impl Clone for Table {
    /// A clone spells the same mapping, pair for pair.
    fn clone(&self) -> (r: Self)
        ensures
            r.spec_pairs() == self.spec_pairs(),
            r@ == self@,
    {
        let mut out: Vec<(String, TableValue)> = Vec::new();
        let mut i: usize = 0;
        while i < self.entries.len()
            invariant
                i <= self.entries@.len(),
                out@.len() == i,
                forall|j: int|
                    0 <= j < i ==> (#[trigger] out@[j]).0@ == self.entries@[j].0@ && out@[j].1@
                        == self.entries@[j].1@,
            decreases self.entries@.len() - i,
        {
            let k = self.entries[i].0.clone();
            let v = self.entries[i].1.clone();
            out.push((k, v));
            i = i + 1;
        }
        let r = Table { entries: out };
        proof {
            assert(r.spec_pairs() =~= self.spec_pairs());
        }
        r
    }
}

/// What a read of one key found.
#[derive(Debug, PartialEq)]
pub enum KeyFetch {
    /// The key is present and live; its record is carried along.
    Value(TableValue),
    /// The key was present but its expiry has passed; it has been removed.
    Expired,
    /// The table has no such key.
    MissingKey,
    /// The store has no such table.
    MissingTable,
}

impl View for Table {
    type V = Map<Seq<char>, TableValueModel>;

    closed spec fn view(&self) -> Map<Seq<char>, TableValueModel> {
        pairs_map(table_pairs_model(self.entries@))
    }
}

impl Table {
    /// The raw pair sequence behind the table.
    pub closed spec fn spec_pairs(self) -> Seq<(Seq<char>, TableValueModel)> {
        table_pairs_model(self.entries@)
    }

    /// Well-formed: every key appears once, keys and records fit the wire.
    pub closed spec fn wf(self) -> bool {
        &&& distinct_keys(self.spec_pairs())
        &&& self.spec_pairs().len() < 0x1_0000_0000
        &&& forall|i: int|
            0 <= i < self.spec_pairs().len() ==> wf_str(#[trigger] self.spec_pairs()[i].0)
                && wf_table_value(self.spec_pairs()[i].1)
    }

    /// An empty table.
    pub fn new() -> (r: Table)
        ensures
            r.wf(),
            r.spec_pairs().len() == 0,
            r@ =~= Map::<Seq<char>, TableValueModel>::empty(),
    {
        let r = Table { entries: Vec::new() };
        proof {
            assert(table_pairs_model(r.entries@) =~= Seq::<(Seq<char>, TableValueModel)>::empty());
        }
        r
    }

    /// The position of the pair holding `key`, if one does.
    fn find(&self, key: &String) -> (r: Option<usize>)
        ensures
            match r {
                Option::Some(i) => i < self.entries@.len() && self.spec_pairs()[i as int].0
                    == key@,
                Option::None => !self@.contains_key(key@),
            },
    {
        proof {
            lemma_pairs_map_contains(self.spec_pairs(), key@);
        }
        let mut i: usize = 0;
        while i < self.entries.len()
            invariant
                i <= self.entries@.len(),
                forall|j: int| 0 <= j < i ==> #[trigger] self.spec_pairs()[j].0 != key@,
            decreases self.entries@.len() - i,
        {
            proof {
                assert(self.spec_pairs()[i as int] == (self.entries@[i as int].0@,
                self.entries@[i as int].1@));
            }
            if crate::wire::str_eq(self.entries[i].0.as_str(), key.as_str()) {
                return Option::Some(i);
            }
            i = i + 1;
        }
        Option::None
    }

    /// Whether `key` is present, live or not.
    pub fn contains(&self, key: &String) -> (r: bool)
        ensures
            r <==> self@.contains_key(key@),
    {
        proof {
            lemma_pairs_map_contains(self.spec_pairs(), key@);
        }
        match self.find(key) {
            Option::Some(i) => {
                proof {
                    assert(self.spec_pairs()[i as int].0 == key@);
                }
                true
            },
            Option::None => false,
        }
    }

    /// Removes `key` if present; the table afterwards has no such key.
    /// Removal is idempotent: absent keys leave the table unchanged.
    pub fn remove(&mut self, key: &String) -> (r: bool)
        requires
            old(self).wf(),
        ensures
            final(self).wf(),
            final(self).spec_pairs().len() <= old(self).spec_pairs().len(),
            final(self)@ =~= old(self)@.remove(key@),
            r <==> old(self)@.contains_key(key@),
    {
        proof {
            lemma_pairs_map_contains(self.spec_pairs(), key@);
        }
        match self.find(key) {
            Option::Some(i) => {
                proof {
                    lemma_pairs_map_remove_at(self.spec_pairs(), i as int);
                    lemma_pairs_map_contains(self.spec_pairs(), key@);
                }
                let ghost oldps = self.spec_pairs();
                self.entries.remove(i);
                proof {
                    assert(table_pairs_model(self.entries@) =~= oldps.remove(i as int));
                }
                true
            },
            Option::None => {
                proof {
                    assert(self@ =~= self@.remove(key@));
                }
                false
            },
        }
    }

    /// Inserts a fresh key. When the key already exists, or the table is at
    /// its size cap, nothing changes and the call reports the collision.
    pub fn insert_new(&mut self, key: String, val: TableValue) -> (r: bool)
        requires
            old(self).wf(),
            wf_str(key@),
            wf_table_value(val@),
        ensures
            final(self).wf(),
            final(self).spec_pairs().len() <= old(self).spec_pairs().len() + 1,
            r <==> (!old(self)@.contains_key(key@) && old(self).spec_pairs().len()
                < 0xffff_fffe),
            r ==> final(self)@ =~= old(self)@.insert(key@, val@),
            !r ==> final(self)@ == old(self)@ && final(self).spec_pairs() == old(
                self,
            ).spec_pairs(),
    {
        if self.entries.len() >= 0xffff_fffe {
            proof {
                lemma_pairs_map_contains(self.spec_pairs(), key@);
            }
            return false;
        }
        proof {
            lemma_pairs_map_contains(self.spec_pairs(), key@);
        }
        match self.find(&key) {
            Option::Some(i) => {
                proof {
                    assert(self.spec_pairs()[i as int].0 == key@);
                }
                false
            },
            Option::None => {
                let ghost oldps = self.spec_pairs();
                proof {
                    lemma_pairs_map_len(oldps);
                }
                self.entries.push((key, val));
                proof {
                    assert(table_pairs_model(self.entries@) =~= oldps.push((key@, val@)));
                    assert(table_pairs_model(self.entries@).drop_last() =~= oldps);
                    lemma_pairs_map_contains(oldps, key@);
                }
                true
            },
        }
    }

    /// Stores a record under `key`, replacing any record already there:
    /// the one place where a later write wins.
    pub fn set(&mut self, key: String, val: TableValue)
        requires
            old(self).wf(),
            wf_str(key@),
            wf_table_value(val@),
            old(self).spec_pairs().len() < 0xffff_fffe,
        ensures
            final(self).wf(),
            final(self).spec_pairs().len() <= old(self).spec_pairs().len() + 1,
            final(self)@ =~= old(self)@.insert(key@, val@),
    {
        let _removed = self.remove(&key);
        let ghost mid = self@;
        let inserted = self.insert_new(key, val);
        proof {
            assert(inserted);
        }
    }

    /// Reads `key` at wall time `now`. A live record is handed back as it
    /// stands; a record at or past its expiry is removed and reported
    /// expired; a missing key is reported missing.
    pub fn fetch(&mut self, key: &String, now: u64) -> (r: KeyFetch)
        requires
            old(self).wf(),
        ensures
            final(self).wf(),
            !old(self)@.contains_key(key@) ==> r == KeyFetch::MissingKey && final(self)@ == old(
                self,
            )@,
            old(self)@.contains_key(key@) && old(self)@[key@].live_at(now) ==> (r matches
                KeyFetch::Value(v) && v@ == old(self)@[key@]) && final(self)@ == old(self)@,
            old(self)@.contains_key(key@) && !old(self)@[key@].live_at(now) ==> r
                == KeyFetch::Expired && final(self)@ =~= old(self)@.remove(key@),
    {
        proof {
            lemma_pairs_map_contains(self.spec_pairs(), key@);
        }
        match self.find(key) {
            Option::None => KeyFetch::MissingKey,
            Option::Some(i) => {
                proof {
                    lemma_pairs_map_get(self.spec_pairs(), i as int);
                }
                let live: bool = match &self.entries[i].1.expiry {
                    Option::None => true,
                    Option::Some(e) => now < *e,
                };
                proof {
                    assert(self.spec_pairs()[i as int] == (self.entries@[i as int].0@,
                    self.entries@[i as int].1@));
                }
                if live {
                    KeyFetch::Value(self.entries[i].1.clone())
                } else {
                    let ghost oldps = self.spec_pairs();
                    proof {
                        lemma_pairs_map_remove_at(oldps, i as int);
                    }
                    self.entries.remove(i);
                    proof {
                        assert(table_pairs_model(self.entries@) =~= oldps.remove(i as int));
                    }
                    KeyFetch::Expired
                }
            },
        }
    }

    /// Every key in the table, each exactly once.
    pub fn keys(&self) -> (r: Vec<String>)
        requires
            self.wf(),
        ensures
            r@.len() == self.spec_pairs().len(),
            r@.len() < 0x1_0000_0000,
            forall|i: int|
                0 <= i < r@.len() ==> self@.contains_key(#[trigger] r@[i]@) && wf_str(r@[i]@),
            forall|k: Seq<char>|
                self@.contains_key(k) ==> exists|i: int| 0 <= i < r@.len() && #[trigger] r@[i]@
                    == k,
            forall|i: int, j: int| 0 <= i < j < r@.len() ==> r@[i]@ != r@[j]@,
    {
        let mut r: Vec<String> = Vec::new();
        let mut i: usize = 0;
        while i < self.entries.len()
            invariant
                self.wf(),
                i <= self.entries@.len(),
                r@.len() == i,
                forall|j: int| 0 <= j < i ==> r@[j]@ == #[trigger] self.spec_pairs()[j].0,
            decreases self.entries@.len() - i,
        {
            r.push(self.entries[i].0.clone());
            proof {
                assert(self.spec_pairs()[i as int] == (self.entries@[i as int].0@,
                self.entries@[i as int].1@));
            }
            i = i + 1;
        }
        proof {
            assert forall|j: int| 0 <= j < r@.len() implies self@.contains_key(#[trigger] r@[j]@)
                && wf_str(r@[j]@) by {
                lemma_pairs_map_get(self.spec_pairs(), j);
            }
            assert forall|k: Seq<char>| self@.contains_key(k) implies exists|j: int|
                0 <= j < r@.len() && #[trigger] r@[j]@ == k by {
                lemma_pairs_map_contains(self.spec_pairs(), k);
                let j = choose|j: int|
                    0 <= j < self.spec_pairs().len() && #[trigger] self.spec_pairs()[j].0 == k;
                assert(r@[j]@ == k);
            }
            assert forall|a: int, b: int| 0 <= a < b < r@.len() implies r@[a]@ != r@[b]@ by {
                assert(self.spec_pairs()[a].0 != self.spec_pairs()[b].0);
            }
        }
        r
    }

    /// A snapshot of every pair in the table, for a whole-table response.
    #[verifier::rlimit(100)]
    #[verifier::spinoff_prover]
    pub fn snapshot_pairs(&self) -> (r: Vec<(String, TableValue)>)
        requires
            self.wf(),
        ensures
            table_pairs_model(r@) == self.spec_pairs(),
            pairs_map(table_pairs_model(r@)) == self@,
            r@.len() < 0x1_0000_0000,
            forall|i: int|
                0 <= i < table_pairs_model(r@).len() ==> wf_str(
                    #[trigger] table_pairs_model(r@)[i].0,
                ) && wf_table_value(table_pairs_model(r@)[i].1),
            forall|i: int|
                0 <= i < table_pairs_model(r@).len() ==> self@.contains_key(
                    #[trigger] table_pairs_model(r@)[i].0,
                ) && table_pairs_model(r@)[i].1 == self@[table_pairs_model(r@)[i].0],
            forall|k: Seq<char>|
                self@.contains_key(k) ==> exists|i: int|
                    0 <= i < table_pairs_model(r@).len() && (#[trigger] table_pairs_model(
                        r@,
                    )[i]).0 == k,
            forall|i: int, j: int|
                0 <= i < j < table_pairs_model(r@).len() ==> table_pairs_model(r@)[i].0
                    != table_pairs_model(r@)[j].0,
    {
        let mut r: Vec<(String, TableValue)> = Vec::new();
        let mut i: usize = 0;
        while i < self.entries.len()
            invariant
                self.wf(),
                i <= self.entries@.len(),
                r@.len() == i,
                forall|j: int|
                    0 <= j < i ==> (#[trigger] r@[j]).0@ == self.entries@[j].0@ && r@[j].1@
                        == self.entries@[j].1@,
            decreases self.entries@.len() - i,
        {
            let k = self.entries[i].0.clone();
            let v = self.entries[i].1.clone();
            r.push((k, v));
            i = i + 1;
        }
        proof {
            assert(table_pairs_model(r@) =~= self.spec_pairs());
            assert forall|i: int| 0 <= i < table_pairs_model(r@).len() implies self@.contains_key(
                #[trigger] table_pairs_model(r@)[i].0,
            ) && table_pairs_model(r@)[i].1 == self@[table_pairs_model(r@)[i].0] by {
                lemma_pairs_map_get(self.spec_pairs(), i);
            }
            assert forall|k: Seq<char>| self@.contains_key(k) implies exists|i: int|
                0 <= i < table_pairs_model(r@).len() && (#[trigger] table_pairs_model(r@)[i]).0
                    == k by {
                lemma_pairs_map_contains(self.spec_pairs(), k);
            }
        }
        r
    }


    /// Builds a table from a sequence of key/record pairs, a later duplicate
    /// key winning, as when a snapshot is read back.
    pub fn from_pairs(ps: Vec<(String, TableValue)>) -> (r: Table)
        requires
            ps@.len() < 0xffff_ffff,
            forall|i: int|
                0 <= i < table_pairs_model(ps@).len() ==> wf_str(
                    (#[trigger] table_pairs_model(ps@)[i]).0,
                ) && wf_table_value(table_pairs_model(ps@)[i].1),
        ensures
            r.wf(),
            r.spec_pairs().len() < 0xffff_ffff,
            r@ == pairs_map(table_pairs_model(ps@)),
    {
        let ghost model = table_pairs_model(ps@);
        let mut t = Table::new();
        let mut i: usize = 0;
        while i < ps.len()
            invariant
                i <= ps@.len(),
                model == table_pairs_model(ps@),
                model.len() == ps@.len(),
                model.len() < 0xffff_ffff,
                forall|j: int|
                    0 <= j < model.len() ==> wf_str((#[trigger] model[j]).0) && wf_table_value(
                        model[j].1,
                    ),
                t.wf(),
                t.spec_pairs().len() <= i,
                t@ == pairs_map(model.subrange(0, i as int)),
            decreases ps@.len() - i,
        {
            let key = ps[i].0.clone();
            let val = ps[i].1.clone();
            proof {
                assert(model[i as int] == (ps@[i as int].0@, ps@[i as int].1@));
                assert(wf_str((#[trigger] model[i as int]).0));
                assert(wf_table_value(model[i as int].1));
            }
            t.set(key, val);
            proof {
                assert(model.subrange(0, i + 1).drop_last() =~= model.subrange(0, i as int));
                assert(t@ =~= pairs_map(model.subrange(0, i + 1)));
            }
            i = i + 1;
        }
        proof {
            assert(model.subrange(0, model.len() as int) =~= model);
        }
        t
    }

    /// How many keys the table holds.
    pub fn len(&self) -> (r: usize)
        requires
            self.wf(),
        ensures
            r == self.spec_pairs().len(),
    {
        self.entries.len()
    }
}

/// The pair count bounds the mapping's size.
pub proof fn lemma_pairs_map_len(ps: Seq<(Seq<char>, TableValueModel)>)
    ensures
        pairs_map(ps).dom().finite(),
        pairs_map(ps).len() <= ps.len(),
    decreases ps.len(),
{
    if ps.len() > 0 {
        lemma_pairs_map_len(ps.drop_last());
    }
}



/// What a well-formed table guarantees of its pair sequence.
pub proof fn lemma_table_wf_pairs(t: Table)
    requires
        t.wf(),
    ensures
        distinct_keys(t.spec_pairs()),
        t.spec_pairs().len() < 0x1_0000_0000,
        forall|i: int|
            0 <= i < t.spec_pairs().len() ==> wf_str((#[trigger] t.spec_pairs()[i]).0)
                && wf_table_value(t.spec_pairs()[i].1),
{
}


/// A table spells the mapping of its pair sequence.
pub proof fn lemma_table_view_pairs(t: Table)
    ensures
        t@ == pairs_map(t.spec_pairs()),
{
}

/// What inserting one key into one table came to.
#[derive(Debug, Clone, Copy, PartialEq, Eq, Structural)]
pub enum KeyInsert {
    /// The key was fresh and is now stored.
    Done,
    /// The key already exists; nothing changed.
    Exists,
    /// The store has no such table.
    NoTable,
}

/// The concurrent hash map of an outside crate, declared so that it can
/// stand in fields and signatures; its behavior enters only through the
/// trusted wrappers below.
#[verifier::external_type_specification]
#[verifier::external_body]
#[verifier::reject_recursive_types(K)]
#[verifier::reject_recursive_types(V)]
#[verifier::reject_recursive_types(H)]
pub struct ExSccHashMap<K, V, H>(scc::HashMap<K, V, H>) where H: std::hash::BuildHasher;

/// What the shared concurrent map holds: each table under its name.
///
/// The name stands for the contents of an `scc::HashMap` at one instant; the
/// trusted wrappers below say how each call moves it.
pub uninterp spec fn store_tables(m: scc::HashMap<String, Table, RandomState>) -> Map<
    Seq<char>,
    Table,
>;

/// The whole database: named tables shared by every connection, backed by a
/// concurrent hash map so that readers and writers on distinct keys do not
/// serialize each other.
pub struct Store {
    /// The shared concurrent map itself.
    pub inner: scc::HashMap<String, Table, RandomState>,
}

impl Store {
    /// The tables the store holds at this instant, by name.
    pub open spec fn tables(self) -> Map<Seq<char>, Table> {
        store_tables(self.inner)
    }

    /// The database as a mapping from table name to key/record mapping.
    pub open spec fn db(self) -> Map<Seq<char>, Map<Seq<char>, TableValueModel>> {
        self.tables().map_values(|t: Table| t@)
    }

    /// Well-formed: there are boundedly many tables, every table name fits
    /// the wire, and every table is well formed.
    pub open spec fn wf(self) -> bool {
        &&& self.tables().dom().finite()
        &&& self.tables().dom().len() < 0xffff_ffff
        &&& forall|n: Seq<char>|
            self.tables().dom().contains(n) ==> wf_str(n) && (#[trigger] self.tables()[n]).wf()
                && self.tables()[n].spec_pairs().len() < 0xffff_ffff
    }

    /// Relies on `scc::HashMap::new`: a fresh map holds nothing.
    #[verifier::external_body]
    pub fn new() -> (r: Store)
        ensures
            r.wf(),
            forall|n: Seq<char>| !store_tables(r.inner).dom().contains(n),
    {
        Store { inner: scc::HashMap::new() }
    }

    /// Relies on `scc::HashMap::insert_sync`: the pair is added exactly when
    /// the key was absent, and an occupied key leaves the map unchanged.
    #[verifier::external_body]
    pub fn insert_table(&mut self, name: String, t: Table) -> (r: bool)
        requires
            old(self).wf(),
            wf_str(name@),
            t.wf(),
            t.spec_pairs().len() < 0xffff_ffff,
            old(self).tables().dom().len() < 0xffff_fffe,
        ensures
            final(self).wf(),
            r <==> !old(self).tables().dom().contains(name@),
            r ==> final(self).tables() == old(self).tables().insert(name@, t),
            !r ==> final(self).tables() == old(self).tables(),
    {
        self.inner.insert_sync(name, t).is_ok()
    }

    /// Relies on `scc::HashMap::remove_sync`: the key and its table leave the
    /// map; removing an absent key changes nothing.
    #[verifier::external_body]
    pub fn remove_table(&mut self, name: &String) -> (r: bool)
        requires
            old(self).wf(),
        ensures
            final(self).wf(),
            final(self).tables() == old(self).tables().remove(name@),
            r <==> old(self).tables().dom().contains(name@),
    {
        self.inner.remove_sync(name).is_some()
    }

    /// Relies on `scc::HashMap::read_sync`: the closure sees the table stored
    /// under the name, and `Table::clone` (verified) copies it pair for pair.
    #[verifier::external_body]
    pub fn get_table_snapshot(&self, name: &String) -> (r: Option<Table>)
        requires
            self.wf(),
        ensures
            match r {
                Option::Some(t) => self.tables().dom().contains(name@)
                    && t@ == self.tables().index(name@)@ && t.wf() && t.spec_pairs().len()
                    < 0xffff_ffff,
                Option::None => !self.tables().dom().contains(name@),
            },
    {
        self.inner.read_sync(name, |_, t| t.clone())
    }

    /// Relies on `scc::HashMap::update_sync`: the closure runs on the table
    /// stored under the name, or not at all when the name is absent; what the
    /// closure does is the verified `Table::insert_new`.
    #[verifier::external_body]
    pub fn insert_key(&mut self, table: &String, key: String, val: TableValue) -> (r: KeyInsert)
        requires
            old(self).wf(),
            wf_str(key@),
            wf_table_value(val@),
        ensures
            final(self).wf(),
            !old(self).db().contains_key(table@) ==> r == KeyInsert::NoTable && final(self).db()
                == old(self).db(),
            old(self).db().contains_key(table@) && (old(self).db()[table@].contains_key(key@)
                || old(self).tables()[table@].spec_pairs().len() >= 0xffff_fffe) ==> r
                == KeyInsert::Exists && final(self).db() == old(self).db(),
            old(self).db().contains_key(table@) && !old(self).db()[table@].contains_key(key@)
                && old(self).tables()[table@].spec_pairs().len() < 0xffff_fffe ==> r
                == KeyInsert::Done && final(self).db() == old(self).db().insert(
                table@,
                old(self).db()[table@].insert(key@, val@),
            ),
    {
        match self.inner.update_sync(table, |_, t| t.insert_new(key, val)) {
            Option::None => KeyInsert::NoTable,
            Option::Some(true) => KeyInsert::Done,
            Option::Some(false) => KeyInsert::Exists,
        }
    }

    /// Relies on `scc::HashMap::update_sync`: the closure runs on the table
    /// stored under the name, or not at all when the name is absent; what the
    /// closure does is the verified `Table::fetch`, which removes a record
    /// observed at or past its expiry.
    #[verifier::external_body]
    pub fn fetch_key(&mut self, table: &String, key: &String, now: u64) -> (r: KeyFetch)
        requires
            old(self).wf(),
        ensures
            final(self).wf(),
            !old(self).db().contains_key(table@) ==> r == KeyFetch::MissingTable && final(self).db() == old(self).db(),
            old(self).db().contains_key(table@) && !old(self).db()[table@].contains_key(key@)
                ==> r == KeyFetch::MissingKey && final(self).db() == old(self).db(),
            old(self).db().contains_key(table@) && old(self).db()[table@].contains_key(key@)
                && old(self).db()[table@][key@].live_at(now) ==> (r matches KeyFetch::Value(v)
                && v@ == old(self).db()[table@][key@] && wf_table_value(v@)) && final(self).db()
                == old(self).db(),
            old(self).db().contains_key(table@) && old(self).db()[table@].contains_key(key@)
                && !old(self).db()[table@][key@].live_at(now) ==> r == KeyFetch::Expired && final(self).db() == old(self).db().insert(table@, old(self).db()[table@].remove(key@)),
    {
        match self.inner.update_sync(table, |_, t| t.fetch(key, now)) {
            Option::None => KeyFetch::MissingTable,
            Option::Some(f) => f,
        }
    }

    /// Relies on `scc::HashMap::update_sync`: the closure runs on the table
    /// stored under the name, or not at all when the name is absent; what the
    /// closure does is the verified `Table::remove`, which is idempotent.
    #[verifier::external_body]
    pub fn remove_key(&mut self, table: &String, key: &String) -> (r: bool)
        requires
            old(self).wf(),
        ensures
            final(self).wf(),
            r <==> old(self).db().contains_key(table@),
            !old(self).db().contains_key(table@) ==> final(self).db() == old(self).db(),
            old(self).db().contains_key(table@) ==> final(self).db() == old(self).db().insert(
                table@,
                old(self).db()[table@].remove(key@),
            ),
    {
        self.inner.update_sync(table, |_, t| t.remove(key)).is_some()
    }

    /// Relies on `scc::HashMap::iter_sync`: the closure sees each entry at
    /// most once, every entry present throughout the scan is seen, and the
    /// scan is a consistent snapshot free of duplicates and torn entries.
    #[verifier::external_body]
    pub fn table_names(&self) -> (r: Vec<String>)
        requires
            self.wf(),
        ensures
            forall|i: int|
                0 <= i < r@.len() ==> self.tables().dom().contains(#[trigger] r@[i]@) && wf_str(
                    r@[i]@,
                ),
            forall|n: Seq<char>|
                self.tables().dom().contains(n) ==> exists|i: int|
                    0 <= i < r@.len() && #[trigger] r@[i]@ == n,
            forall|i: int, j: int| 0 <= i < j < r@.len() ==> r@[i]@ != r@[j]@,
            r@.len() == self.tables().dom().len(),
    {
        let mut out: Vec<String> = Vec::new();
        self.inner.iter_sync(|k, _| {
            out.push(k.clone());
            true
        });
        out
    }


    /// Relies on `scc::HashMap::iter_sync`: the scan is a consistent
    /// snapshot that sees each entry exactly once, and the closure copies
    /// each table with the verified `Table::clone`.
    #[verifier::external_body]
    pub fn snapshot_tables(&self) -> (r: Vec<(String, Table)>)
        requires
            self.wf(),
        ensures
            r@.len() == self.tables().dom().len(),
            forall|i: int|
                0 <= i < r@.len() ==> self.tables().dom().contains((#[trigger] r@[i]).0@)
                    && wf_str(r@[i].0@) && r@[i].1.wf() && r@[i].1.spec_pairs().len()
                    < 0xffff_ffff && r@[i].1@ == self.tables()[r@[i].0@]@
                    && r@[i].1.spec_pairs() == self.tables()[r@[i].0@].spec_pairs(),
            forall|n: Seq<char>|
                self.tables().dom().contains(n) ==> exists|i: int|
                    0 <= i < r@.len() && (#[trigger] r@[i]).0@ == n,
            forall|i: int, j: int| 0 <= i < j < r@.len() ==> r@[i].0@ != r@[j].0@,
    {
        let mut out: Vec<(String, Table)> = Vec::new();
        self.inner.iter_sync(|k, t| {
            out.push((k.clone(), t.clone()));
            true
        });
        out
    }

    /// Rebuilds a store from a snapshot's entries: each named table is
    /// created holding exactly the mapping it was saved with.
    pub fn from_tables(tables: Vec<(String, Table)>) -> (r: Store)
        requires
            tables@.len() < 0xffff_fffe,
            forall|i: int|
                0 <= i < tables@.len() ==> wf_str((#[trigger] tables@[i]).0@) && tables@[i].1.wf()
                    && tables@[i].1.spec_pairs().len() < 0xffff_ffff,
            forall|i: int, j: int| 0 <= i < j < tables@.len() ==> tables@[i].0@ != tables@[j].0@,
        ensures
            r.wf(),
            r.tables().dom().len() == tables@.len(),
            forall|i: int|
                0 <= i < tables@.len() ==> r.db().contains_key((#[trigger] tables@[i]).0@)
                    && r.db()[tables@[i].0@] == tables@[i].1@,
            forall|n: Seq<char>|
                r.db().contains_key(n) ==> exists|i: int|
                    0 <= i < tables@.len() && (#[trigger] tables@[i]).0@ == n,
    {
        let mut st = Store::new();
        proof {
            assert(st.tables().dom() =~= Set::<Seq<char>>::empty());
        }
        let mut i: usize = 0;
        while i < tables.len()
            invariant
                i <= tables@.len(),
                tables@.len() < 0xffff_fffe,
                forall|k: int|
                    0 <= k < tables@.len() ==> wf_str((#[trigger] tables@[k]).0@)
                        && tables@[k].1.wf() && tables@[k].1.spec_pairs().len() < 0xffff_ffff,
                forall|a: int, b: int|
                    0 <= a < b < tables@.len() ==> tables@[a].0@ != tables@[b].0@,
                st.wf(),
                st.tables().dom().finite(),
                st.tables().dom().len() == i,
                forall|k: int|
                    0 <= k < i ==> st.db().contains_key((#[trigger] tables@[k]).0@)
                        && st.db().index(tables@[k].0@) == tables@[k].1@,
                forall|n: Seq<char>|
                    st.db().contains_key(n) ==> exists|k: int|
                        0 <= k < i && (#[trigger] tables@[k]).0@ == n,
            decreases tables@.len() - i,
        {
            let name = tables[i].0.clone();
            let t = tables[i].1.clone();
            let ghost before = st.tables();
            let ghost db_before = st.db();
            let fresh = st.insert_table(name, t);
            proof {
                if before.dom().contains(tables@[i as int].0@) {
                    assert(db_before.contains_key(tables@[i as int].0@));
                    let k = choose|k: int|
                        0 <= k < i && (#[trigger] tables@[k]).0@ == tables@[i as int].0@;
                    assert(tables@[k].0@ != tables@[i as int].0@);
                }
                assert(fresh);
                assert(st.tables().dom() =~= before.dom().insert(tables@[i as int].0@));
                assert(st.db() =~= db_before.insert(tables@[i as int].0@, t@));
            }
            i = i + 1;
        }
        st
    }

    /// Relies on `scc::HashMap::len`: it reports the number of entries.
    #[verifier::external_body]
    pub fn table_count(&self) -> (r: usize)
        requires
            self.wf(),
        ensures
            r == self.tables().dom().len(),
    {
        self.inner.len()
    }
}

} // verus!
