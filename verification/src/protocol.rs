//! The request/response schema: every request a client may send, the closed
//! status set, and the response with its optional payload.

use crate::value::{
    InsertTableValue, InsertValueModel, TableValue, TableValueModel, wf_model, wf_table_value,
};
use vstd::prelude::*;
use vstd::utf8::encode_utf8;

verus! {

/// A string is short enough for a four-byte length field on the wire.
pub open spec fn wf_str(s: Seq<char>) -> bool {
    encode_utf8(s).len() < 0x1_0000_0000
}

/// The outcome of a request, one of a fixed closed set.
#[derive(Debug, Clone, Copy, PartialEq, Eq, Hash, Structural)]
pub enum Status {
    Success,
    ConnLimit,
    BadRequest,
    ServerError,
    RequestTooLarge,
    ResponseTooLarge,
    Unauthorized,
    PermissionDenied,
    BadCredentials,
    AlreadyExists,
    NoSuchTable,
    NoSuchKey,
    KeyExpired,
}

impl Status {
    /// The human-readable serialized form of the status.
    pub open spec fn spec_text(self) -> Seq<char> {
        match self {
            Status::Success => "OK"@,
            Status::ConnLimit => "Too many connections"@,
            Status::BadRequest => "Malformed request"@,
            Status::ServerError => "Server error"@,
            Status::RequestTooLarge => "Request too large"@,
            Status::ResponseTooLarge => "Response too large"@,
            Status::Unauthorized => "Unauthorized"@,
            Status::PermissionDenied => "Permission denied"@,
            Status::BadCredentials => "Invalid credentials"@,
            Status::AlreadyExists => "Already exists"@,
            Status::NoSuchTable => "No such table"@,
            Status::NoSuchKey => "No such key"@,
            Status::KeyExpired => "Key expired"@,
        }
    }

    /// The human-readable serialized form of the status.
    pub fn text(&self) -> (r: &'static str)
        ensures
            r@ == self.spec_text(),
    {
        match self {
            Status::Success => "OK",
            Status::ConnLimit => "Too many connections",
            Status::BadRequest => "Malformed request",
            Status::ServerError => "Server error",
            Status::RequestTooLarge => "Request too large",
            Status::ResponseTooLarge => "Response too large",
            Status::Unauthorized => "Unauthorized",
            Status::PermissionDenied => "Permission denied",
            Status::BadCredentials => "Invalid credentials",
            Status::AlreadyExists => "Already exists",
            Status::NoSuchTable => "No such table",
            Status::NoSuchKey => "No such key",
            Status::KeyExpired => "Key expired",
        }
    }
}

impl Default for Status {
    /// The default status is success.
    fn default() -> (r: Self)
        ensures
            r == Status::Success,
    {
        Status::Success
    }
}

/// The model of a request.
#[verifier::ext_equal]
pub enum RequestModel {
    Ping,
    Auth { username: Seq<char>, password: Seq<char> },
    ListTables,
    InsertTable { table: Seq<char>, contents: Option<Seq<(Seq<char>, InsertValueModel)>> },
    GetTable { table: Seq<char> },
    DeleteTable { table: Seq<char> },
    List { table: Seq<char> },
    Get { table: Seq<char>, key: Seq<char> },
    Delete { table: Seq<char>, key: Seq<char> },
    Insert { table: Seq<char>, key: Seq<char>, value: InsertValueModel },
}

/// A request from a client, tagged by its action.
#[derive(Debug, PartialEq)]
pub enum Request {
    Ping,
    Auth { username: String, password: String },
    ListTables,
    InsertTable { table: String, contents: Option<Vec<(String, InsertTableValue)>> },
    GetTable { table: String },
    DeleteTable { table: String },
    List { table: String },
    Get { table: String, key: String },
    Delete { table: String, key: String },
    Insert { table: String, key: String, value: InsertTableValue },
}

/// The models of a sequence of key/record pairs, pair by pair.
pub open spec fn insert_pairs_model(xs: Seq<(String, InsertTableValue)>) -> Seq<
    (Seq<char>, InsertValueModel),
> {
    Seq::new(xs.len(), |i: int| (xs[i].0@, xs[i].1@))
}

/// The models of a sequence of key/stored-record pairs, pair by pair.
pub open spec fn table_pairs_model(xs: Seq<(String, TableValue)>) -> Seq<
    (Seq<char>, TableValueModel),
> {
    Seq::new(xs.len(), |i: int| (xs[i].0@, xs[i].1@))
}

/// The views of a sequence of strings, string by string.
pub open spec fn strs_model(xs: Seq<String>) -> Seq<Seq<char>> {
    Seq::new(xs.len(), |i: int| xs[i]@)
}

impl View for Request {
    type V = RequestModel;

    open spec fn view(&self) -> RequestModel {
        match self {
            Request::Ping => RequestModel::Ping,
            Request::Auth { username, password } => RequestModel::Auth {
                username: username@,
                password: password@,
            },
            Request::ListTables => RequestModel::ListTables,
            Request::InsertTable { table, contents } => RequestModel::InsertTable {
                table: table@,
                contents: match contents {
                    Option::None => Option::None,
                    Option::Some(cs) => Option::Some(insert_pairs_model(cs@)),
                },
            },
            Request::GetTable { table } => RequestModel::GetTable { table: table@ },
            Request::DeleteTable { table } => RequestModel::DeleteTable { table: table@ },
            Request::List { table } => RequestModel::List { table: table@ },
            Request::Get { table, key } => RequestModel::Get { table: table@, key: key@ },
            Request::Delete { table, key } => RequestModel::Delete { table: table@, key: key@ },
            Request::Insert { table, key, value } => RequestModel::Insert {
                table: table@,
                key: key@,
                value: value@,
            },
        }
    }
}

/// The model of a response payload.
#[verifier::ext_equal]
pub enum PayloadModel {
    Pong,
    Tables { tables: Seq<Seq<char>> },
    Keys { keys: Seq<Seq<char>> },
    Table { table: Seq<(Seq<char>, TableValueModel)> },
    TableValue { table: Seq<char>, key: Seq<char>, value: TableValueModel },
}

/// The payload of a successful response, distinguished by its fields.
#[derive(Debug, PartialEq)]
pub enum Payload {
    Pong,
    Tables { tables: Vec<String> },
    Keys { keys: Vec<String> },
    Table { table: Vec<(String, TableValue)> },
    TableValue { table: String, key: String, value: TableValue },
}

impl View for Payload {
    type V = PayloadModel;

    open spec fn view(&self) -> PayloadModel {
        match self {
            Payload::Pong => PayloadModel::Pong,
            Payload::Tables { tables } => PayloadModel::Tables { tables: strs_model(tables@) },
            Payload::Keys { keys } => PayloadModel::Keys { keys: strs_model(keys@) },
            Payload::Table { table } => PayloadModel::Table { table: table_pairs_model(table@) },
            Payload::TableValue { table, key, value } => PayloadModel::TableValue {
                table: table@,
                key: key@,
                value: value@,
            },
        }
    }
}

/// The model of a response.
#[verifier::ext_equal]
pub struct ResponseModel {
    pub status: Status,
    pub payload: Option<PayloadModel>,
}

/// A response to a client: a status and, on some successes, a payload.
#[derive(Debug, PartialEq)]
pub struct Response {
    pub status: Status,
    pub payload: Option<Payload>,
}

impl View for Response {
    type V = ResponseModel;

    open spec fn view(&self) -> ResponseModel {
        ResponseModel {
            status: self.status,
            payload: match &self.payload {
                Option::None => Option::None,
                Option::Some(p) => Option::Some(p.view()),
            },
        }
    }
}

impl Response {
    /// A successful response that carries a payload.
    pub fn ok(payload: Payload) -> (r: Self)
        ensures
            r@ == (ResponseModel { status: Status::Success, payload: Option::Some(payload@) }),
    {
        Response { status: Status::Success, payload: Option::Some(payload) }
    }

    /// A response that carries a status alone.
    pub fn status(status: Status) -> (r: Self)
        ensures
            r@ == (ResponseModel { status, payload: Option::None }),
    {
        Response { status, payload: Option::None }
    }

    /// A response that carries both a status and a payload.
    pub fn payload(status: Status, payload: Payload) -> (r: Self)
        ensures
            r@ == (ResponseModel { status, payload: Option::Some(payload@) }),
    {
        Response { status, payload: Option::Some(payload) }
    }
}

/// A request-side record is well formed when its value is.
pub open spec fn wf_insert_value(m: InsertValueModel) -> bool {
    wf_model(m.value)
}

/// Every string and collection in the request fits a four-byte length field.
pub open spec fn wf_request(m: RequestModel) -> bool {
    match m {
        RequestModel::Ping => true,
        RequestModel::Auth { username, password } => wf_str(username) && wf_str(password),
        RequestModel::ListTables => true,
        RequestModel::InsertTable { table, contents } => wf_str(table) && match contents {
            Option::None => true,
            Option::Some(cs) => cs.len() < 0xffff_fffe && (forall|i: int|
                0 <= i < cs.len() ==> wf_str(#[trigger] cs[i].0) && wf_insert_value(cs[i].1)),
        },
        RequestModel::GetTable { table } => wf_str(table),
        RequestModel::DeleteTable { table } => wf_str(table),
        RequestModel::List { table } => wf_str(table),
        RequestModel::Get { table, key } => wf_str(table) && wf_str(key),
        RequestModel::Delete { table, key } => wf_str(table) && wf_str(key),
        RequestModel::Insert { table, key, value } => wf_str(table) && wf_str(key)
            && wf_insert_value(value),
    }
}

/// Every string and collection in the payload fits a four-byte length field.
pub open spec fn wf_payload(m: PayloadModel) -> bool {
    match m {
        PayloadModel::Pong => true,
        PayloadModel::Tables { tables } => tables.len() < 0x1_0000_0000 && (forall|i: int|
            0 <= i < tables.len() ==> wf_str(#[trigger] tables[i])),
        PayloadModel::Keys { keys } => keys.len() < 0x1_0000_0000 && (forall|i: int|
            0 <= i < keys.len() ==> wf_str(#[trigger] keys[i])),
        PayloadModel::Table { table } => table.len() < 0x1_0000_0000 && (forall|i: int|
            0 <= i < table.len() ==> wf_str(#[trigger] table[i].0) && wf_table_value(table[i].1)),
        PayloadModel::TableValue { table, key, value } => wf_str(table) && wf_str(key)
            && wf_table_value(value),
    }
}

/// Every string and collection in the response fits a four-byte length field.
pub open spec fn wf_response(m: ResponseModel) -> bool {
    match m.payload {
        Option::None => true,
        Option::Some(p) => wf_payload(p),
    }
}

} // verus!
