use void::compress::{compress_bytes, decompress_bytes, Mode};
use void::frame::{build_frame, parse_frame_header, FrameHeader};
use void::protocol::{Payload, Request, Response, Status};
use void::session::{admit_conn, auth, handle_request, Credentials, SessionState};
use void::store::Store;
use void::text::{fmt_conns, log_conns, DateTime, LogLevel};
use void::value::{InsertTableValue, PrimitiveValue, TableValue};
use void::snapshot::{load_image, save_image};
use void::wire::{decode_request, decode_response, encode_request, encode_response};

fn creds() -> Credentials {
    Credentials { username: "admin".to_owned(), password: "password".to_owned() }
}

fn authed() -> SessionState {
    SessionState { authenticated: true }
}

fn ins(v: PrimitiveValue, lifetime: Option<u64>) -> InsertTableValue {
    InsertTableValue { value: v, lifetime }
}

#[test]
fn request_round_trips_through_the_binary_codec() {
    let reqs = vec![
        Request::Ping,
        Request::ListTables,
        Request::Auth { username: "admin".to_owned(), password: "password".to_owned() },
        Request::InsertTable { table: "t1".to_owned(), contents: None },
        Request::InsertTable {
            table: "t2".to_owned(),
            contents: Some(vec![
                ("a".to_owned(), ins(PrimitiveValue::Int(-5), None)),
                ("b".to_owned(), ins(PrimitiveValue::Boolean(true), Some(9))),
            ]),
        },
        Request::GetTable { table: "t1".to_owned() },
        Request::DeleteTable { table: "t1".to_owned() },
        Request::List { table: "t1".to_owned() },
        Request::Get { table: "t1".to_owned(), key: "k".to_owned() },
        Request::Delete { table: "t1".to_owned(), key: "k".to_owned() },
        Request::Insert {
            table: "t1".to_owned(),
            key: "k".to_owned(),
            value: ins(
                PrimitiveValue::Array(vec![
                    PrimitiveValue::Uint(42),
                    PrimitiveValue::Str("héllo".to_owned()),
                    PrimitiveValue::Float(4614256656552045848),
                ]),
                Some(2),
            ),
        },
    ];
    for req in reqs {
        let mut bytes = Vec::new();
        encode_request(&req, &mut bytes);
        let back = decode_request(&bytes).expect("a fresh encoding must decode");
        assert_eq!(back, req);
    }
}

#[test]
fn response_round_trips_through_the_binary_codec() {
    let tv = TableValue { value: PrimitiveValue::Int(42), expiry: Some(1700000002) };
    let resps = vec![
        Response::status(Status::Unauthorized),
        Response::ok(Payload::Pong),
        Response::ok(Payload::Tables { tables: vec!["a".to_owned(), "b".to_owned()] }),
        Response::ok(Payload::Keys { keys: vec!["k1".to_owned(), "k2".to_owned()] }),
        Response::ok(Payload::Table { table: vec![("k".to_owned(), tv.clone())] }),
        Response::ok(Payload::TableValue {
            table: "t1".to_owned(),
            key: "k".to_owned(),
            value: tv,
        }),
    ];
    for res in resps {
        let mut bytes = Vec::new();
        encode_response(&res, &mut bytes);
        let back = decode_response(&bytes).expect("a fresh encoding must decode");
        assert_eq!(back, res);
    }
}

#[test]
fn corrupt_bytes_are_refused() {
    assert!(decode_request(&vec![]).is_none());
    assert!(decode_request(&vec![0xdf, 0, 0, 0, 1, 9]).is_none());
    let mut bytes = Vec::new();
    encode_request(&Request::Ping, &mut bytes);
    bytes.push(0);
    assert!(decode_request(&bytes).is_none(), "trailing bytes must be refused");
}

#[test]
fn every_codec_round_trips() {
    let body: Vec<u8> = (0..=255u8).cycle().take(4096).collect();
    for mode in [
        Mode::Lz4,
        Mode::Zstd,
        Mode::Snappy,
        Mode::Brotli,
        Mode::Deflate,
        Mode::Zlib,
        Mode::Gzip,
        Mode::Lzw,
    ] {
        let packed = compress_bytes(&body, mode);
        let back = decompress_bytes(&packed, body.len(), mode)
            .unwrap_or_else(|| panic!("codec must round-trip"));
        assert_eq!(back, body);
        assert!(decompress_bytes(&packed, body.len() + 1, mode).is_none());
    }
}

#[test]
fn oversized_frames_are_rejected_from_the_header_alone() {
    let hdr = vec![0xff, 0xff, 0xff, 0x7f, 0];
    assert_eq!(parse_frame_header(&hdr, 1024), FrameHeader::TooLarge);
    assert_eq!(parse_frame_header(&vec![1, 0], 1024), FrameHeader::NeedMore);
    assert_eq!(
        parse_frame_header(&vec![4, 0, 0, 0, 0], 1024),
        FrameHeader::Plain { body_len: 4 }
    );
    assert_eq!(parse_frame_header(&vec![4, 0, 0, 0, 0x03], 1024), FrameHeader::BadMode);
    assert_eq!(
        parse_frame_header(&vec![4, 0, 0, 0, 0x02, 9, 0, 0, 0], 1024),
        FrameHeader::Compressed { body_len: 4, mode: Mode::Zstd, full_len: 9 }
    );
}

#[test]
fn frames_carry_the_length_prefix() {
    let body = vec![1u8, 2, 3];
    let frame = build_frame(&body, 1024).unwrap();
    assert_eq!(frame, vec![3, 0, 0, 0, 0, 1, 2, 3]);
    assert!(build_frame(&vec![0u8; 9], 8).is_none());
}

#[test]
fn auth_then_insert_then_get() {
    let mut store = Store::new();
    let mut state = SessionState { authenticated: false };
    let c = creds();
    let r = handle_request(
        &mut state,
        &mut store,
        &c,
        Request::Auth { username: "admin".to_owned(), password: "password".to_owned() },
        1000,
    );
    assert_eq!(r.status, Status::Success);
    assert!(state.authenticated);
    let r = handle_request(
        &mut state,
        &mut store,
        &c,
        Request::InsertTable { table: "t1".to_owned(), contents: None },
        1000,
    );
    assert_eq!(r.status, Status::Success);
    let r = handle_request(
        &mut state,
        &mut store,
        &c,
        Request::Insert {
            table: "t1".to_owned(),
            key: "k".to_owned(),
            value: ins(PrimitiveValue::Uint(42), Some(2)),
        },
        1000,
    );
    assert_eq!(r.status, Status::Success);
    let r = handle_request(
        &mut state,
        &mut store,
        &c,
        Request::Get { table: "t1".to_owned(), key: "k".to_owned() },
        1001,
    );
    assert_eq!(r.status, Status::Success);
    match r.payload {
        Some(Payload::TableValue { table, key, value }) => {
            assert_eq!(table, "t1");
            assert_eq!(key, "k");
            assert_eq!(value.value, PrimitiveValue::Uint(42));
            assert_eq!(value.expiry, Some(1002));
        }
        other => panic!("unexpected payload: {:?}", other),
    }
}

#[test]
fn expired_keys_are_reported_once_then_gone() {
    let mut store = Store::new();
    let mut state = authed();
    let c = creds();
    handle_request(
        &mut state,
        &mut store,
        &c,
        Request::InsertTable { table: "t1".to_owned(), contents: None },
        1000,
    );
    handle_request(
        &mut state,
        &mut store,
        &c,
        Request::Insert {
            table: "t1".to_owned(),
            key: "k".to_owned(),
            value: ins(PrimitiveValue::Uint(1), Some(2)),
        },
        1000,
    );
    let r = handle_request(
        &mut state,
        &mut store,
        &c,
        Request::Get { table: "t1".to_owned(), key: "k".to_owned() },
        1003,
    );
    assert_eq!(r.status, Status::KeyExpired);
    let r = handle_request(
        &mut state,
        &mut store,
        &c,
        Request::Get { table: "t1".to_owned(), key: "k".to_owned() },
        1003,
    );
    assert_eq!(r.status, Status::NoSuchKey);
}

#[test]
fn zero_lifetime_expires_immediately() {
    let mut store = Store::new();
    let mut state = authed();
    let c = creds();
    handle_request(
        &mut state,
        &mut store,
        &c,
        Request::InsertTable { table: "t".to_owned(), contents: None },
        50,
    );
    handle_request(
        &mut state,
        &mut store,
        &c,
        Request::Insert {
            table: "t".to_owned(),
            key: "k".to_owned(),
            value: ins(PrimitiveValue::Boolean(false), Some(0)),
        },
        50,
    );
    let r = handle_request(
        &mut state,
        &mut store,
        &c,
        Request::Get { table: "t".to_owned(), key: "k".to_owned() },
        50,
    );
    assert_eq!(r.status, Status::KeyExpired);
}

#[test]
fn duplicate_tables_and_keys_collide() {
    let mut store = Store::new();
    let mut state = authed();
    let c = creds();
    let mk = |t: &str| Request::InsertTable { table: t.to_owned(), contents: None };
    assert_eq!(handle_request(&mut state, &mut store, &c, mk("t1"), 0).status, Status::Success);
    assert_eq!(
        handle_request(&mut state, &mut store, &c, mk("t1"), 0).status,
        Status::AlreadyExists
    );
    let put = |k: &str| Request::Insert {
        table: "t1".to_owned(),
        key: k.to_owned(),
        value: ins(PrimitiveValue::Int(1), None),
    };
    assert_eq!(handle_request(&mut state, &mut store, &c, put("k"), 0).status, Status::Success);
    assert_eq!(
        handle_request(&mut state, &mut store, &c, put("k"), 0).status,
        Status::AlreadyExists
    );
}

#[test]
fn unauthorized_requests_are_refused_but_ping_is_not() {
    let mut store = Store::new();
    let mut state = SessionState { authenticated: false };
    let c = creds();
    let r = handle_request(
        &mut state,
        &mut store,
        &c,
        Request::Get { table: "t".to_owned(), key: "k".to_owned() },
        0,
    );
    assert_eq!(r.status, Status::Unauthorized);
    let r = handle_request(&mut state, &mut store, &c, Request::Ping, 0);
    assert_eq!(r.status, Status::Success);
    assert_eq!(r.payload, Some(Payload::Pong));
    let r = handle_request(
        &mut state,
        &mut store,
        &c,
        Request::Auth { username: "admin".to_owned(), password: "wrong".to_owned() },
        0,
    );
    assert_eq!(r.status, Status::BadCredentials);
    assert!(!state.authenticated);
}

#[test]
fn deletes_are_idempotent() {
    let mut store = Store::new();
    let mut state = authed();
    let c = creds();
    handle_request(
        &mut state,
        &mut store,
        &c,
        Request::InsertTable { table: "t".to_owned(), contents: None },
        0,
    );
    let del = Request::Delete { table: "t".to_owned(), key: "nope".to_owned() };
    assert_eq!(handle_request(&mut state, &mut store, &c, del, 0).status, Status::Success);
    let rmt = |t: &str| Request::DeleteTable { table: t.to_owned() };
    assert_eq!(handle_request(&mut state, &mut store, &c, rmt("t"), 0).status, Status::Success);
    assert_eq!(handle_request(&mut state, &mut store, &c, rmt("t"), 0).status, Status::Success);
}

#[test]
fn initial_contents_land_and_the_last_duplicate_wins() {
    let mut store = Store::new();
    let mut state = authed();
    let c = creds();
    let r = handle_request(
        &mut state,
        &mut store,
        &c,
        Request::InsertTable {
            table: "t".to_owned(),
            contents: Some(vec![
                ("k".to_owned(), ins(PrimitiveValue::Int(1), None)),
                ("k".to_owned(), ins(PrimitiveValue::Int(2), None)),
            ]),
        },
        0,
    );
    assert_eq!(r.status, Status::Success);
    let r = handle_request(
        &mut state,
        &mut store,
        &c,
        Request::Get { table: "t".to_owned(), key: "k".to_owned() },
        0,
    );
    match r.payload {
        Some(Payload::TableValue { value, .. }) => assert_eq!(value.value, PrimitiveValue::Int(2)),
        other => panic!("unexpected payload: {:?}", other),
    }
}

#[test]
fn listings_cover_the_store() {
    let mut store = Store::new();
    let mut state = authed();
    let c = creds();
    for t in ["a", "b"] {
        handle_request(
            &mut state,
            &mut store,
            &c,
            Request::InsertTable { table: t.to_owned(), contents: None },
            0,
        );
    }
    let r = handle_request(&mut state, &mut store, &c, Request::ListTables, 0);
    match r.payload {
        Some(Payload::Tables { mut tables }) => {
            tables.sort();
            assert_eq!(tables, vec!["a".to_owned(), "b".to_owned()]);
        }
        other => panic!("unexpected payload: {:?}", other),
    }
}

#[test]
fn status_texts_match_the_schema() {
    assert_eq!(Status::Success.text(), "OK");
    assert_eq!(Status::ConnLimit.text(), "Too many connections");
    assert_eq!(Status::BadRequest.text(), "Malformed request");
    assert_eq!(Status::BadCredentials.text(), "Invalid credentials");
    assert_eq!(Status::KeyExpired.text(), "Key expired");
}

#[test]
fn admission_is_a_strict_bound() {
    assert!(admit_conn(0, 1));
    assert!(!admit_conn(1, 1));
    assert!(!admit_conn(2, 1));
}

#[test]
fn auth_checks_both_fields() {
    let c = creds();
    assert!(auth(&"admin".to_owned(), &"password".to_owned(), &c).is_authenticated);
    assert!(!auth(&"admin".to_owned(), &"nope".to_owned(), &c).is_authenticated);
    assert!(!auth(&"root".to_owned(), &"password".to_owned(), &c).is_authenticated);
}

#[test]
fn mode_bytes_name_single_codecs() {
    assert_eq!(Mode::try_from(0x01), Some(Mode::Lz4));
    assert_eq!(Mode::try_from(0x80), Some(Mode::Lzw));
    assert_eq!(Mode::try_from(0x03), None);
    assert_eq!(Mode::try_from(0x00), None);
    assert_eq!(Mode::tcpset(0x41), vec![Mode::Lz4, Mode::Gzip]);
    assert_eq!(Mode::tcpset(0x00), vec![]);
}

#[test]
fn datetime_reads_the_epoch() {
    let d = DateTime::new(0);
    assert_eq!(d.date, "01/01/1970");
    assert_eq!(d.time, "00:00:00");
    let d = DateTime::new(86400 + 3661);
    assert_eq!(d.date, "02/01/1970");
    assert_eq!(d.time, "01:01:01");
}

#[test]
fn log_levels_gate_by_name() {
    let l = LogLevel::load(&Some("TRACE".to_owned()));
    assert!(l.trace && l.error);
    let l = LogLevel::load(&Some("ERROR".to_owned()));
    assert!(!l.warn && l.error);
    let l = LogLevel::load(&None);
    assert!(!l.debug && l.info);
    let l = LogLevel::load(&Some("garbled".to_owned()));
    assert!(!l.debug && l.info);
}

#[test]
fn connection_lines_spell_the_counts() {
    assert_eq!(fmt_conns(3, 10), "(3 / 10)");
    assert_eq!(log_conns("Connection established", 1, 8), "Connection established (1 conn / 8 max)");
    assert_eq!(log_conns("Connection closed", 2, 8), "Connection closed (2 conns / 8 max)");
}

#[test]
fn snapshot_image_round_trips() {
    let mut store = Store::new();
    let mut state = authed();
    let c = creds();
    handle_request(
        &mut state,
        &mut store,
        &c,
        Request::InsertTable {
            table: "t".to_owned(),
            contents: Some(vec![
                ("k1".to_owned(), ins(PrimitiveValue::Str("hello".to_owned()), None)),
                ("k2".to_owned(), ins(PrimitiveValue::Uint(7), Some(1000))),
            ]),
        },
        100,
    );
    let bytes = save_image(&store);
    let mut loaded = load_image(&bytes).expect("a fresh image must load");
    let r = handle_request(
        &mut state,
        &mut loaded,
        &c,
        Request::Get { table: "t".to_owned(), key: "k1".to_owned() },
        200,
    );
    assert_eq!(r.status, Status::Success);
    match r.payload {
        Some(Payload::TableValue { value, .. }) => {
            assert_eq!(value.value, PrimitiveValue::Str("hello".to_owned()));
            assert_eq!(value.expiry, None);
        }
        other => panic!("unexpected payload: {:?}", other),
    }
    let r = handle_request(
        &mut state,
        &mut loaded,
        &c,
        Request::Get { table: "t".to_owned(), key: "k2".to_owned() },
        200,
    );
    match r.payload {
        Some(Payload::TableValue { value, .. }) => assert_eq!(value.expiry, Some(1100)),
        other => panic!("unexpected payload: {:?}", other),
    }
    assert!(load_image(&vec![1, 2, 3]).is_none(), "a corrupt image must be refused");
}

#[test]
fn standard_compact_forms_are_accepted() {
    // A `PING` request as a compact encoder writes it: fixmap, fixstr.
    let bytes = vec![
        0x81, 0xa6, b'a', b'c', b't', b'i', b'o', b'n', 0xa4, b'P', b'I', b'N', b'G',
    ];
    assert_eq!(decode_request(&bytes), Some(Request::Ping));
    // An `INSERT` with a positive fixint value and an uint8 lifetime.
    let mut bytes = vec![0x85];
    for (k, v) in [("action", "INSERT"), ("table", "t"), ("key", "k")] {
        bytes.push(0xa0 | k.len() as u8);
        bytes.extend_from_slice(k.as_bytes());
        bytes.push(0xa0 | v.len() as u8);
        bytes.extend_from_slice(v.as_bytes());
    }
    bytes.push(0xa5);
    bytes.extend_from_slice(b"value");
    bytes.push(0x2a);
    bytes.push(0xa8);
    bytes.extend_from_slice(b"lifetime");
    bytes.push(0xcc);
    bytes.push(200);
    assert_eq!(
        decode_request(&bytes),
        Some(Request::Insert {
            table: "t".to_owned(),
            key: "k".to_owned(),
            value: InsertTableValue {
                value: PrimitiveValue::Uint(42),
                lifetime: Some(200),
            },
        })
    );
    // A negative fixint inside a fixarray value.
    let mut bytes = vec![0x84];
    for (k, v) in [("action", "INSERT"), ("table", "t"), ("key", "k2")] {
        bytes.push(0xa0 | k.len() as u8);
        bytes.extend_from_slice(k.as_bytes());
        bytes.push(0xa0 | v.len() as u8);
        bytes.extend_from_slice(v.as_bytes());
    }
    bytes.push(0xa5);
    bytes.extend_from_slice(b"value");
    bytes.push(0x92);
    bytes.push(0xff);
    bytes.push(0xd0);
    bytes.push(0x80);
    assert_eq!(
        decode_request(&bytes),
        Some(Request::Insert {
            table: "t".to_owned(),
            key: "k2".to_owned(),
            value: InsertTableValue {
                value: PrimitiveValue::Array(vec![
                    PrimitiveValue::Int(-1),
                    PrimitiveValue::Int(-128),
                ]),
                lifetime: None,
            },
        })
    );
}

#[test]
fn length_mismatch_is_refused_by_every_codec() {
    let body: Vec<u8> = (0..128u8).collect();
    for mode in [
        Mode::Lz4,
        Mode::Zstd,
        Mode::Snappy,
        Mode::Brotli,
        Mode::Deflate,
        Mode::Zlib,
        Mode::Gzip,
        Mode::Lzw,
    ] {
        let packed = compress_bytes(&body, mode);
        assert!(decompress_bytes(&packed, body.len() - 1, mode).is_none());
        assert!(decompress_bytes(&packed, body.len() + 1, mode).is_none());
        assert_eq!(decompress_bytes(&packed, body.len(), mode).unwrap(), body);
    }
}

#[test]
fn capacity_is_not_mistaken_for_presence() {
    let mut store = Store::new();
    let mut state = authed();
    let c = creds();
    handle_request(
        &mut state,
        &mut store,
        &c,
        Request::InsertTable { table: "t".to_owned(), contents: None },
        0,
    );
    let r = handle_request(
        &mut state,
        &mut store,
        &c,
        Request::Insert {
            table: "t".to_owned(),
            key: "k".to_owned(),
            value: ins(PrimitiveValue::Int(1), None),
        },
        0,
    );
    assert_eq!(r.status, Status::Success);
}
