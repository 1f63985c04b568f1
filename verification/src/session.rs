//! The per-connection session: admission control, authentication, and the
//! dispatch of each request against the shared store.

use crate::protocol::{
    Payload, PayloadModel, Request, RequestModel, Response, ResponseModel, Status, wf_request,
    wf_response,
};
use crate::store::{KeyFetch, KeyInsert, Store, Table};
use crate::value::{InsertTableValue, InsertValueModel, TableValueModel};
use vstd::prelude::*;

verus! {

broadcast use vstd::std_specs::vec::group_vec_axioms;

/// The one username/password pair the server accepts.
pub struct Credentials {
    pub username: String,
    pub password: String,
}

/// Per-connection state: whether this connection has authenticated.
pub struct SessionState {
    pub authenticated: bool,
}

/// What an authentication attempt came to, with the response to send.
pub struct AuthResult {
    pub is_authenticated: bool,
    pub response: Response,
}

/// Checks a username/password pair against the configured credentials.
/// Matching credentials authenticate and answer success; anything else
/// leaves the connection unauthenticated and answers `BadCredentials`.
pub fn auth(username: &String, password: &String, creds: &Credentials) -> (r: AuthResult)
    ensures
        r.is_authenticated <==> (username@ == creds.username@ && password@ == creds.password@),
        r.is_authenticated ==> r.response@ == (ResponseModel {
            status: Status::Success,
            payload: Option::None,
        }),
        !r.is_authenticated ==> r.response@ == (ResponseModel {
            status: Status::BadCredentials,
            payload: Option::None,
        }),
{
    if crate::wire::str_eq(username.as_str(), creds.username.as_str()) && crate::wire::str_eq(
        password.as_str(),
        creds.password.as_str(),
    ) {
        AuthResult { is_authenticated: true, response: Response::status(Status::Success) }
    } else {
        AuthResult { is_authenticated: false, response: Response::status(Status::BadCredentials) }
    }
}

/// Whether a fresh connection is admitted: it is exactly when the count of
/// open connections is still below the configured bound.
pub fn admit_conn(current_conns: usize, max_conns: usize) -> (r: bool)
    ensures
        r <==> current_conns < max_conns,
{
    current_conns < max_conns
}

/// A sequence of names spells out a key set: no duplicates, nothing missing,
/// nothing extra.
pub open spec fn names_of(ns: Seq<Seq<char>>, dom: Set<Seq<char>>) -> bool {
    &&& forall|i: int| 0 <= i < ns.len() ==> dom.contains(#[trigger] ns[i])
    &&& forall|k: Seq<char>| dom.contains(k) ==> exists|i: int|
        0 <= i < ns.len() && #[trigger] ns[i] == k
    &&& forall|i: int, j: int| 0 <= i < j < ns.len() ==> ns[i] != ns[j]
}

/// A sequence of pairs spells out a mapping: each key once, each with its
/// record, nothing missing.
pub open spec fn pairs_of(
    ps: Seq<(Seq<char>, TableValueModel)>,
    m: Map<Seq<char>, TableValueModel>,
) -> bool {
    &&& forall|i: int|
        0 <= i < ps.len() ==> m.contains_key(#[trigger] ps[i].0) && ps[i].1 == m[ps[i].0]
    &&& forall|k: Seq<char>| m.contains_key(k) ==> exists|i: int|
        0 <= i < ps.len() && #[trigger] ps[i].0 == k
    &&& forall|i: int, j: int| 0 <= i < j < ps.len() ==> ps[i].0 != ps[j].0
}

/// The mapping a table's initial contents spell at wall time `now`: within
/// the initial set a later pair with the same key wins.
pub open spec fn contents_map(cs: Seq<(Seq<char>, InsertValueModel)>, now: u64) -> Map<
    Seq<char>,
    TableValueModel,
>
    decreases cs.len(),
{
    if cs.len() == 0 {
        Map::empty()
    } else {
        contents_map(cs.drop_last(), now).insert(cs.last().0, cs.last().1.stored_at(now))
    }
}

/// A status-only response model.
pub open spec fn just_status(st: Status) -> ResponseModel {
    ResponseModel { status: st, payload: Option::None }
}

/// Builds the table a `INSERT TABLE` request asks for: empty, or populated
/// from the given initial contents, a later duplicate key winning.
fn build_table(contents: &Option<Vec<(String, InsertTableValue)>>, now: u64) -> (r: Table)
    requires
        match contents {
            Option::None => true,
            Option::Some(cs) => crate::protocol::insert_pairs_model(cs@).len() < 0xffff_fffe
                && forall|i: int|
                0 <= i < crate::protocol::insert_pairs_model(cs@).len() ==> crate::protocol::wf_str(
                    (#[trigger] crate::protocol::insert_pairs_model(cs@)[i]).0,
                ) && crate::protocol::wf_insert_value(
                    crate::protocol::insert_pairs_model(cs@)[i].1,
                ),
        },
    ensures
        r.wf(),
        r.spec_pairs().len() < 0xffff_ffff,
        r@ == (match contents {
            Option::None => Map::<Seq<char>, TableValueModel>::empty(),
            Option::Some(cs) => contents_map(crate::protocol::insert_pairs_model(cs@), now),
        }),
{
    let mut t = Table::new();
    match contents {
        Option::None => {
            proof {
                assert(t@ =~= Map::<Seq<char>, TableValueModel>::empty());
            }
            t
        },
        Option::Some(cs) => {
            let ghost model = crate::protocol::insert_pairs_model(cs@);
            let mut i: usize = 0;
            while i < cs.len()
                invariant
                    i <= cs@.len(),
                    model == crate::protocol::insert_pairs_model(cs@),
                    model.len() == cs@.len(),
                    model.len() < 0xffff_fffe,
                    forall|j: int|
                        0 <= j < model.len() ==> crate::protocol::wf_str(#[trigger] model[j].0)
                            && crate::protocol::wf_insert_value(model[j].1),
                    t.wf(),
                    t.spec_pairs().len() <= i,
                    t@ == contents_map(model.subrange(0, i as int), now),
                decreases cs@.len() - i,
            {
                let key = cs[i].0.clone();
                let val = cs[i].1.clone().stored_at(now);
                proof {
                    assert(model[i as int] == (cs@[i as int].0@, cs@[i as int].1@));
                    assert(crate::protocol::wf_str((#[trigger] model[i as int]).0));
                    assert(crate::protocol::wf_insert_value(model[i as int].1));
                    assert(key@ == model[i as int].0);
                    assert(val@ == model[i as int].1.stored_at(now));
                }
                t.set(key, val);
                proof {
                    assert(model.subrange(0, i + 1).drop_last() =~= model.subrange(0, i as int));
                    assert(t@ =~= contents_map(model.subrange(0, i + 1), now));
                }
                i = i + 1;
            }
            proof {
                assert(model.subrange(0, model.len() as int) =~= model);
            }
            t
        },
    }
}

/// Answers one request against the store at wall time `now`.
///
/// Before authentication only `PING` and `AUTH` are honored and everything
/// else is refused with `Unauthorized`; afterwards each action reads or
/// moves the database exactly as its contract below states, and every
/// failure is reported as a status without ending the session.
#[verifier::rlimit(100)]
#[verifier::spinoff_prover]
pub fn handle_request(
    state: &mut SessionState,
    store: &mut Store,
    creds: &Credentials,
    req: Request,
    now: u64,
) -> (r: Response)
    requires
        old(store).wf(),
        wf_request(req@),
    ensures
        final(store).wf(),
        wf_response(r@),
        // PING answers pong and touches nothing, authenticated or not.
        req@ is Ping ==> final(state).authenticated == old(state).authenticated && final(store).db() == old(store).db() && r@ == (ResponseModel {
            status: Status::Success,
            payload: Option::Some(PayloadModel::Pong),
        }),
        // AUTH with the configured credentials authenticates; with any other
        // pair it answers BadCredentials and keeps the prior state.
        req@ matches RequestModel::Auth { username: u, password: p } ==> final(store).db() == old(store).db() && (if u == creds.username@ && p == creds.password@ {
            final(state).authenticated && r@ == just_status(Status::Success)
        } else {
            final(state).authenticated == old(state).authenticated && r@ == just_status(
                Status::BadCredentials,
            )
        }),
        // Any other action before authentication is refused untouched.
        !old(state).authenticated && !(req@ is Ping) && !(req@ is Auth) ==> final(state).authenticated == old(state).authenticated && final(store).db() == old(store).db() && r@
            == just_status(Status::Unauthorized),
        // LIST TABLE names every table exactly once.
        old(state).authenticated && req@ is ListTables ==> final(store).db() == old(store).db()
            && r@.status == Status::Success && (r@.payload matches Option::Some(
            PayloadModel::Tables { tables: ts },
        ) && names_of(ts, old(store).db().dom())),
        // INSERT TABLE creates the named table with its initial contents, or
        // reports a collision and changes nothing.
        req@ matches RequestModel::InsertTable {
            table: t,
            contents: cs,
        } ==> (old(state).authenticated ==> (if old(store).db().contains_key(t) || old(store).tables().dom().len() >= 0xffff_fffe {
            final(store).db() == old(store).db() && r@ == just_status(Status::AlreadyExists)
        } else {
            final(store).db() == old(store).db().insert(
                t,
                match cs {
                    Option::None => Map::<Seq<char>, TableValueModel>::empty(),
                    Option::Some(pairs) => contents_map(pairs, now),
                },
            ) && r@ == just_status(Status::Success)
        })),
        // GET TABLE answers a snapshot of the whole table.
        req@ matches RequestModel::GetTable { table: t } ==> (old(state).authenticated ==> final(store).db() == old(store).db() && (if old(store).db().contains_key(t) {
            r@.status == Status::Success && (r@.payload matches Option::Some(
                PayloadModel::Table { table: ps },
            ) && pairs_of(ps, old(store).db()[t]))
        } else {
            r@ == just_status(Status::NoSuchTable)
        })),
        // DELETE TABLE removes the table and answers success even when the
        // table was absent.
        req@ matches RequestModel::DeleteTable { table: t } ==> (old(state).authenticated ==> final(store).db() == old(store).db().remove(t) && r@ == just_status(Status::Success)),
        // LIST names every key of the table exactly once.
        req@ matches RequestModel::List { table: t } ==> (old(state).authenticated ==> final(store).db() == old(store).db() && (if old(store).db().contains_key(t) {
            r@.status == Status::Success && (r@.payload matches Option::Some(
                PayloadModel::Keys { keys: ks },
            ) && names_of(ks, old(store).db()[t].dom()))
        } else {
            r@ == just_status(Status::NoSuchTable)
        })),
        // GET answers a live record as stored, removes and reports a record
        // observed at or past its expiry, and names what else went wrong.
        req@ matches RequestModel::Get { table: t, key: k } ==> (old(state).authenticated ==> (if !old(store).db().contains_key(t) {
            final(store).db() == old(store).db() && r@ == just_status(Status::NoSuchTable)
        } else if !old(store).db()[t].contains_key(k) {
            final(store).db() == old(store).db() && r@ == just_status(Status::NoSuchKey)
        } else if old(store).db()[t][k].live_at(now) {
            final(store).db() == old(store).db() && r@.status == Status::Success && r@.payload
                == Option::Some(
                PayloadModel::TableValue { table: t, key: k, value: old(store).db()[t][k] },
            )
        } else {
            final(store).db() == old(store).db().insert(t, old(store).db()[t].remove(k)) && r@
                == just_status(Status::KeyExpired)
        })),
        // DELETE removes the key and answers success even when the key was
        // absent; only a missing table is surfaced.
        req@ matches RequestModel::Delete { table: t, key: k } ==> (old(state).authenticated ==> (if old(store).db().contains_key(t) {
            final(store).db() == old(store).db().insert(t, old(store).db()[t].remove(k)) && r@
                == just_status(Status::Success)
        } else {
            final(store).db() == old(store).db() && r@ == just_status(Status::NoSuchTable)
        })),
        // INSERT stores a fresh key, reports a collision, or names the
        // missing table.
        req@ matches RequestModel::Insert {
            table: t,
            key: k,
            value: v,
        } ==> (old(state).authenticated ==> (if !old(store).db().contains_key(t) {
            final(store).db() == old(store).db() && r@ == just_status(Status::NoSuchTable)
        } else if old(store).db()[t].contains_key(k) || old(store).tables()[
            t
        ].spec_pairs().len() >= 0xffff_fffe {
            final(store).db() == old(store).db() && r@ == just_status(Status::AlreadyExists)
        } else {
            final(store).db() == old(store).db().insert(t, old(store).db()[t].insert(
                k,
                v.stored_at(now),
            )) && r@ == just_status(Status::Success)
        })),
        // Only AUTH ever changes the authentication state.
        !(req@ is Auth) ==> final(state).authenticated == old(state).authenticated,
{
    match req {
        Request::Ping => Response::ok(Payload::Pong),
        Request::Auth { username, password } => {
            let outcome = auth(&username, &password, creds);
            if outcome.is_authenticated {
                state.authenticated = true;
            }
            outcome.response
        },
        _ if !state.authenticated => Response::status(Status::Unauthorized),
        Request::ListTables => {
            let tables = store.table_names();
            proof {
                assert(store.db().dom() =~= store.tables().dom());
                assert forall|i: int| 0 <= i < crate::protocol::strs_model(tables@).len() implies
                    crate::protocol::wf_str(
                        #[trigger] crate::protocol::strs_model(tables@)[i],
                    ) && store.db().dom().contains(crate::protocol::strs_model(tables@)[i]) by {
                    assert(crate::protocol::strs_model(tables@)[i] == tables@[i]@);
                }
                assert forall|k: Seq<char>| store.db().dom().contains(k) implies exists|i: int|
                    0 <= i < crate::protocol::strs_model(tables@).len()
                        && #[trigger] crate::protocol::strs_model(tables@)[i] == k by {
                    let i = choose|i: int| 0 <= i < tables@.len() && #[trigger] tables@[i]@ == k;
                    assert(crate::protocol::strs_model(tables@)[i] == k);
                }
                assert forall|i: int, j: int|
                    0 <= i < j < crate::protocol::strs_model(tables@).len() implies
                    crate::protocol::strs_model(tables@)[i] != crate::protocol::strs_model(
                        tables@,
                    )[j] by {
                    assert(tables@[i]@ != tables@[j]@);
                }
            }
            Response::ok(Payload::Tables { tables })
        },
        Request::InsertTable { table, contents } => {
            if store.table_count() >= 0xffff_fffe {
                return Response::status(Status::AlreadyExists);
            }
            let t = build_table(&contents, now);
            if store.insert_table(table, t) {
                Response::status(Status::Success)
            } else {
                Response::status(Status::AlreadyExists)
            }
        },
        Request::GetTable { table } => match store.get_table_snapshot(&table) {
            Option::Some(t) => {
                let pairs = t.snapshot_pairs();
                Response::ok(Payload::Table { table: pairs })
            },
            Option::None => Response::status(Status::NoSuchTable),
        },
        Request::DeleteTable { table } => {
            let _existed = store.remove_table(&table);
            proof {
                assert(store.db() =~= old(store).db().remove(table@));
            }
            Response::status(Status::Success)
        },
        Request::List { table } => match store.get_table_snapshot(&table) {
            Option::Some(t) => {
                let keys = t.keys();
                proof {
                    assert forall|i: int| 0 <= i < crate::protocol::strs_model(keys@).len() implies
                        crate::protocol::wf_str(
                            #[trigger] crate::protocol::strs_model(keys@)[i],
                        ) && t@.dom().contains(crate::protocol::strs_model(keys@)[i]) by {
                        assert(crate::protocol::strs_model(keys@)[i] == keys@[i]@);
                    }
                    assert forall|k: Seq<char>| t@.dom().contains(k) implies exists|i: int|
                        0 <= i < crate::protocol::strs_model(keys@).len()
                            && #[trigger] crate::protocol::strs_model(keys@)[i] == k by {
                        let i = choose|i: int| 0 <= i < keys@.len() && #[trigger] keys@[i]@ == k;
                        assert(crate::protocol::strs_model(keys@)[i] == k);
                    }
                    assert forall|i: int, j: int|
                        0 <= i < j < crate::protocol::strs_model(keys@).len() implies
                        crate::protocol::strs_model(keys@)[i] != crate::protocol::strs_model(
                            keys@,
                        )[j] by {
                        assert(keys@[i]@ != keys@[j]@);
                    }
                }
                Response::ok(Payload::Keys { keys })
            },
            Option::None => Response::status(Status::NoSuchTable),
        },
        Request::Get { table, key } => match store.fetch_key(&table, &key, now) {
            KeyFetch::Value(v) => Response::ok(
                Payload::TableValue { table, key, value: v },
            ),
            KeyFetch::Expired => Response::status(Status::KeyExpired),
            KeyFetch::MissingKey => Response::status(Status::NoSuchKey),
            KeyFetch::MissingTable => Response::status(Status::NoSuchTable),
        },
        Request::Delete { table, key } => {
            if store.remove_key(&table, &key) {
                Response::status(Status::Success)
            } else {
                Response::status(Status::NoSuchTable)
            }
        },
        Request::Insert { table, key, value } => {
            let stored = value.stored_at(now);
            match store.insert_key(&table, key, stored) {
                KeyInsert::Done => Response::status(Status::Success),
                KeyInsert::Exists => Response::status(Status::AlreadyExists),
                KeyInsert::NoTable => Response::status(Status::NoSuchTable),
            }
        },
    }
}

} // verus!
