//! JSON-RPC 2.0 messages: reading them from JSON values and writing them as
//! JSON values.
use vstd::prelude::*;
use vstd::string::StrSliceExecFns;
use vstd::utf8::encode_utf8;

use crate::error::{protocol, LspzError};
use crate::json_text::{json_from_slice, json_parse_of, json_text, json_text_of};
use crate::framing::{parse_frame, spec_parse_frame, FrameParse};
use crate::json::{entries_view, jint, jobject, jstr, opt_view, push_entry, Json, JsonV};
use crate::text::{push_char, push_i64, push_str, signed_decimal, str_eq};

verus! {

/// A JSON-RPC error object.
#[derive(Debug, PartialEq)]
pub struct JsonRpcError {
    pub code: i64,
    pub message: String,
    pub data: Option<Json>,
}

/// The model of a JSON-RPC error object.
pub struct RpcErrorV {
    pub code: int,
    pub message: Seq<char>,
    pub data: Option<JsonV>,
}

impl JsonRpcError {
    pub open spec fn view(self) -> RpcErrorV {
        RpcErrorV { code: self.code as int, message: self.message@, data: opt_view(self.data) }
    }
}

/// A JSON-RPC message.
#[derive(Debug, PartialEq)]
pub enum LspMessage {
    /// A request: an id, a method and params.
    Request { id: i64, method: String, params: Json },
    /// The response to a request: a result or an error.
    Response { id: i64, result: Option<Json>, error: Option<JsonRpcError> },
    /// A notification: a method and params, no id.
    Notification { method: String, params: Json },
}

/// The model of a message.
pub enum MessageV {
    Request { id: int, method: Seq<char>, params: JsonV },
    Response { id: int, result: Option<JsonV>, error: Option<RpcErrorV> },
    Notification { method: Seq<char>, params: JsonV },
}

impl LspMessage {
    pub open spec fn view(self) -> MessageV {
        match self {
            LspMessage::Request { id, method, params } => MessageV::Request {
                id: id as int,
                method: method@,
                params: params@,
            },
            LspMessage::Response { id, result, error } => MessageV::Response {
                id: id as int,
                result: opt_view(result),
                error: match error {
                    Some(e) => Some(e.view()),
                    None => None,
                },
            },
            LspMessage::Notification { method, params } => MessageV::Notification {
                method: method@,
                params: params@,
            },
        }
    }
}

/// The one-line description of a message: its kind with its id and method.
pub open spec fn message_text(m: MessageV) -> Seq<char> {
    match m {
        MessageV::Request { id, method, .. } => "Request(id="@ + signed_decimal(id) + ", method="@
            + method + ")"@,
        MessageV::Response { id, .. } => "Response(id="@ + signed_decimal(id) + ")"@,
        MessageV::Notification { method, .. } => "Notification(method="@ + method + ")"@,
    }
}

impl LspMessage {
    /// A one-line description of the message (what it prints as).
    pub fn describe(&self) -> (r: String)
        ensures
            r@ == message_text(self@),
    {
        let mut out = String::new();
        match self {
            LspMessage::Request { id, method, .. } => {
                push_str(&mut out, "Request(id=");
                push_i64(&mut out, *id);
                push_str(&mut out, ", method=");
                push_str(&mut out, method.as_str());
                push_str(&mut out, ")");
            },
            LspMessage::Response { id, .. } => {
                push_str(&mut out, "Response(id=");
                push_i64(&mut out, *id);
                push_str(&mut out, ")");
            },
            LspMessage::Notification { method, .. } => {
                push_str(&mut out, "Notification(method=");
                push_str(&mut out, method.as_str());
                push_str(&mut out, ")");
            },
        }
        proof {
            assert(out@ =~= message_text(self@));
        }
        out
    }
}

/// Why a JSON value is not a message.
pub enum ParseFailure {
    /// It is not an object.
    NotObject,
    /// Its `jsonrpc` member is not `"2.0"`.
    BadVersion(JsonV),
    /// Its id is not an integer that fits in `i64`.
    BadId,
    /// Its `error` member is not an error object.
    BadErrorObject,
    /// Its members fit no kind of message.
    Unrecognized,
}

/// An error object: an object with an integer `code` and a string `message`,
/// and `data` unless that is absent or `null`.
pub open spec fn read_rpc_error(v: JsonV) -> Option<RpcErrorV> {
    match (v.get_i64("code"@), v.get_str("message"@)) {
        (Some(c), Some(m)) => Some(
            RpcErrorV {
                code: c,
                message: m,
                data: match v.get("data"@) {
                    Some(JsonV::Null) => None,
                    Some(d) => Some(d),
                    None => None,
                },
            },
        ),
        _ => None,
    }
}

/// The params of a request or notification (`null` when absent).
pub open spec fn params_of(v: JsonV) -> JsonV {
    match v.get("params"@) {
        Some(p) => p,
        None => JsonV::Null,
    }
}

/// Reading a message: a request has an id and a method, a notification a
/// method and no id, a response an id and either a result or an error.
pub open spec fn spec_parse_message(v: JsonV) -> Result<MessageV, ParseFailure> {
    if !v.is_object() {
        Err(ParseFailure::NotObject)
    } else if v.has_key("jsonrpc"@) && v.get_str("jsonrpc"@) != Some("2.0"@) {
        Err(ParseFailure::BadVersion(v.get("jsonrpc"@).unwrap()))
    } else {
        let has_id = v.has_key("id"@);
        let has_result = v.has_key("result"@);
        let has_error = v.has_key("error"@);
        match v.get_str("method"@) {
            Some(m) => if !has_result && !has_error {
                if has_id {
                    match v.get_i64("id"@) {
                        Some(id) => Ok(MessageV::Request { id, method: m, params: params_of(v) }),
                        None => Err(ParseFailure::BadId),
                    }
                } else {
                    Ok(MessageV::Notification { method: m, params: params_of(v) })
                }
            } else {
                Err(ParseFailure::Unrecognized)
            },
            None => if has_id && has_result && !has_error {
                match v.get_i64("id"@) {
                    Some(id) => Ok(MessageV::Response { id, result: v.get("result"@), error: None }),
                    None => Err(ParseFailure::BadId),
                }
            } else if has_id && !has_result && has_error {
                match v.get_i64("id"@) {
                    Some(id) => match read_rpc_error(v.get("error"@).unwrap()) {
                        Some(e) => Ok(MessageV::Response { id, result: None, error: Some(e) }),
                        None => Err(ParseFailure::BadErrorObject),
                    },
                    None => Err(ParseFailure::BadId),
                }
            } else {
                Err(ParseFailure::Unrecognized)
            },
        }
    }
}

/// The text of a JSON value in error messages: its compact JSON text.
pub open spec fn value_text(v: JsonV) -> Seq<char> {
    json_text_of(v)
}

/// The error for a value that is not a message.
pub open spec fn failure_error_matches(f: ParseFailure, whole: JsonV, e: LspzError) -> bool {
    match f {
        ParseFailure::NotObject => e matches LspzError::Protocol(m) && m@ == "message is not a JSON object"@,
        ParseFailure::BadVersion(x) => e matches LspzError::Protocol(m) && m@ == "invalid jsonrpc version: "@
            + value_text(x),
        ParseFailure::BadId => e matches LspzError::Protocol(m) && m@ == "message id must be a valid integer"@,
        ParseFailure::BadErrorObject => e matches LspzError::JsonParse(m) && m@ == "invalid error object"@,
        ParseFailure::Unrecognized => e matches LspzError::Protocol(m) && m@
            == "unrecognized message structure: "@ + value_text(whole),
    }
}

/// The text of a JSON value in error messages.
pub fn value_text_exec(v: &Json) -> (r: String)
    ensures
        r@ == value_text(v@),
{
    json_text(v)
}

/// Reads an error object.
fn read_rpc_error_exec(v: &Json) -> (r: Option<JsonRpcError>)
    ensures
        match r {
            Some(e) => read_rpc_error(v@) == Some(e.view()),
            None => read_rpc_error(v@) is None,
        },
{
    let code = match v.get_i64("code") {
        Some(c) => c,
        None => return None,
    };
    let message = match v.get_str("message") {
        Some(m) => m.to_owned(),
        None => return None,
    };
    let data = match v.get("data") {
        Some(d) => if d.is_null() {
            None
        } else {
            Some(d.deep_clone())
        },
        None => None,
    };
    let e = JsonRpcError { code, message, data };
    proof {
        assert(read_rpc_error(v@) == Some(e.view()));
    }
    Some(e)
}

/// The params of a request or notification.
fn params_exec(v: &Json) -> (r: Json)
    ensures
        r@ == params_of(v@),
{
    match v.get("params") {
        Some(p) => p.deep_clone(),
        None => Json::Null,
    }
}

/// Reads a JSON-RPC message from a JSON value.
pub fn parse_message(val: &Json) -> (r: Result<LspMessage, LspzError>)
    ensures
        match spec_parse_message(val@) {
            Ok(m) => r matches Ok(x) && x.view() == m,
            Err(f) => r matches Err(e) && failure_error_matches(f, val@, e),
        },
{
    if !val.is_object() {
        return Err(protocol("message is not a JSON object"));
    }
    match val.get("jsonrpc") {
        Some(v) => {
            let ok = match v.as_str() {
                Some(s) => str_eq(s, "2.0"),
                None => false,
            };
            if !ok {
                let mut m = "invalid jsonrpc version: ".to_owned();
                let t = value_text_exec(v);
                push_str(&mut m, t.as_str());
                return Err(LspzError::Protocol(m));
            }
        },
        None => {},
    }
    let has_id = val.contains_key("id");
    let has_result = val.contains_key("result");
    let has_error = val.contains_key("error");
    match val.get_str("method") {
        Some(m) => {
            if !has_result && !has_error {
                if has_id {
                    let params = params_exec(val);
                    match val.get_i64("id") {
                        Some(id) => Ok(LspMessage::Request { id, method: m.to_owned(), params }),
                        None => Err(protocol("message id must be a valid integer")),
                    }
                } else {
                    Ok(LspMessage::Notification { method: m.to_owned(), params: params_exec(val) })
                }
            } else {
                let mut msg = "unrecognized message structure: ".to_owned();
                let t = value_text_exec(val);
                push_str(&mut msg, t.as_str());
                Err(LspzError::Protocol(msg))
            }
        },
        None => {
            if has_id && has_result && !has_error {
                match val.get_i64("id") {
                    Some(id) => {
                        let result = val.get_cloned("result");
                        Ok(LspMessage::Response { id, result, error: None })
                    },
                    None => Err(protocol("message id must be a valid integer")),
                }
            } else if has_id && !has_result && has_error {
                match val.get_i64("id") {
                    Some(id) => {
                        let ev = match val.get("error") {
                            Some(e) => e,
                            None => return Err(LspzError::JsonParse("invalid error object".to_owned())),
                        };
                        match read_rpc_error_exec(ev) {
                            Some(e) => Ok(LspMessage::Response { id, result: None, error: Some(e) }),
                            None => Err(LspzError::JsonParse("invalid error object".to_owned())),
                        }
                    },
                    None => Err(protocol("message id must be a valid integer")),
                }
            } else {
                let mut msg = "unrecognized message structure: ".to_owned();
                let t = value_text_exec(val);
                push_str(&mut msg, t.as_str());
                Err(LspzError::Protocol(msg))
            }
        },
    }
}

/// The JSON form of an error object: `code`, `message`, and `data` when
/// present.
pub open spec fn rpc_error_json(e: RpcErrorV) -> JsonV {
    JsonV::Object(
        seq![("code"@, JsonV::Int(e.code)), ("message"@, JsonV::Str(e.message))] + match e.data {
            Some(d) => seq![("data"@, d)],
            None => Seq::empty(),
        },
    )
}

/// The JSON form of a message, with `"jsonrpc": "2.0"`.
pub open spec fn message_json(m: MessageV) -> JsonV {
    match m {
        MessageV::Request { id, method, params } => JsonV::Object(
            seq![
                ("jsonrpc"@, JsonV::Str("2.0"@)),
                ("id"@, JsonV::Int(id)),
                ("method"@, JsonV::Str(method)),
                ("params"@, params),
            ],
        ),
        MessageV::Response { id, result, error } => JsonV::Object(
            seq![("jsonrpc"@, JsonV::Str("2.0"@)), ("id"@, JsonV::Int(id))] + match result {
                Some(r) => seq![("result"@, r)],
                None => Seq::empty(),
            } + match error {
                Some(e) => seq![("error"@, rpc_error_json(e))],
                None => Seq::empty(),
            },
        ),
        MessageV::Notification { method, params } => JsonV::Object(
            seq![
                ("jsonrpc"@, JsonV::Str("2.0"@)),
                ("method"@, JsonV::Str(method)),
                ("params"@, params),
            ],
        ),
    }
}

impl JsonRpcError {
    /// The JSON form of the error object.
    pub fn to_json(&self) -> (r: Json)
        ensures
            r@ == rpc_error_json(self.view()),
    {
        let mut out: Vec<(String, Json)> = Vec::new();
        push_entry(&mut out, "code", jint(self.code));
        push_entry(&mut out, "message", jstr(self.message.as_str()));
        match &self.data {
            Some(d) => push_entry(&mut out, "data", d.deep_clone()),
            None => {},
        }
        let r = jobject(out);
        proof {
            assert(entries_view(out@) =~= rpc_error_json(self.view())->Object_0);
        }
        r
    }
}

impl LspMessage {
    /// The JSON form of the message.
    pub fn to_json_value(&self) -> (r: Result<Json, LspzError>)
        ensures
            r matches Ok(j) && j@ == message_json(self.view()),
    {
        let mut out: Vec<(String, Json)> = Vec::new();
        push_entry(&mut out, "jsonrpc", jstr("2.0"));
        match self {
            LspMessage::Request { id, method, params } => {
                push_entry(&mut out, "id", jint(*id));
                push_entry(&mut out, "method", jstr(method.as_str()));
                push_entry(&mut out, "params", params.deep_clone());
            },
            LspMessage::Response { id, result, error } => {
                push_entry(&mut out, "id", jint(*id));
                match result {
                    Some(x) => push_entry(&mut out, "result", x.deep_clone()),
                    None => {},
                }
                match error {
                    Some(e) => push_entry(&mut out, "error", e.to_json()),
                    None => {},
                }
            },
            LspMessage::Notification { method, params } => {
                push_entry(&mut out, "method", jstr(method.as_str()));
                push_entry(&mut out, "params", params.deep_clone());
            },
        }
        let r = jobject(out);
        proof {
            assert(entries_view(out@) =~= message_json(self.view())->Object_0);
        }
        Ok(r)
    }
}


impl LspMessage {
    /// Reads a message from the bytes of a Content-Length frame: the frame at
    /// their start, its body read as JSON, and that value read as a message.
    /// An incomplete frame is a protocol error.
    pub fn from_frame_bytes(bytes: &[u8]) -> (r: Result<LspMessage, LspzError>)
        ensures
            match spec_parse_frame(bytes@) {
                FrameParse::Incomplete => r matches Err(LspzError::Protocol(m)) && m@ == "incomplete frame"@,
                FrameParse::Failed(m) => r matches Err(LspzError::Protocol(x)) && x@ == m,
                FrameParse::Complete(body, _) => match json_parse_of(body) {
                    Err(m) => r matches Err(LspzError::JsonParse(x)) && x@ == m,
                    Ok(v) => match spec_parse_message(v) {
                        Ok(msg) => r matches Ok(x) && x.view() == msg,
                        Err(f) => r matches Err(e) && failure_error_matches(f, v, e),
                    },
                },
            },
    {
        let frame = match parse_frame(bytes) {
            Err(e) => return Err(e),
            Ok(None) => return Err(protocol("incomplete frame")),
            Ok(Some((f, _))) => f,
        };
        let value = match json_from_slice(frame.body.as_slice()) {
            Ok(v) => v,
            Err(e) => return Err(e),
        };
        parse_message(&value)
    }

    /// The JSON text of the message, as bytes (no Content-Length header).
    pub fn to_json_bytes(&self) -> (r: Result<Vec<u8>, LspzError>)
        ensures
            r matches Ok(b) && b@ == encode_utf8(json_text_of(message_json(self.view()))),
    {
        let value = match self.to_json_value() {
            Ok(v) => v,
            Err(e) => return Err(e),
        };
        let text = json_text(&value);
        Ok(text.as_str().as_bytes_vec())
    }
}

/// Whether a message reads back as itself: a response carries exactly one
/// of a result and an error, and an error's `data` is not `null`.
pub open spec fn round_trips(m: MessageV) -> bool {
    match m {
        MessageV::Response { result, error, .. } => (result is Some) != (error is Some) && match error {
            Some(e) => !(e.data matches Some(JsonV::Null)),
            None => true,
        },
        _ => true,
    }
}

proof fn lemma_keys_distinct()
    ensures
        "jsonrpc"@ != "id"@,
        "jsonrpc"@ != "method"@,
        "jsonrpc"@ != "params"@,
        "jsonrpc"@ != "result"@,
        "jsonrpc"@ != "error"@,
        "id"@ != "method"@,
        "id"@ != "params"@,
        "id"@ != "result"@,
        "id"@ != "error"@,
        "method"@ != "params"@,
        "method"@ != "result"@,
        "method"@ != "error"@,
        "result"@ != "error"@,
        "params"@ != "result"@,
        "params"@ != "error"@,
        "code"@ != "message"@,
        "code"@ != "data"@,
        "message"@ != "data"@,
{
    reveal_strlit("jsonrpc");
    reveal_strlit("id");
    reveal_strlit("method");
    reveal_strlit("params");
    reveal_strlit("result");
    reveal_strlit("error");
    reveal_strlit("code");
    reveal_strlit("message");
    reveal_strlit("data");
    assert("jsonrpc"@[0] != "id"@[0]);
    assert("jsonrpc"@[0] != "method"@[0]);
    assert("jsonrpc"@[0] != "params"@[0]);
    assert("jsonrpc"@[0] != "result"@[0]);
    assert("jsonrpc"@[0] != "error"@[0]);
    assert("id"@[0] != "method"@[0]);
    assert("id"@[0] != "params"@[0]);
    assert("id"@[0] != "result"@[0]);
    assert("id"@[0] != "error"@[0]);
    assert("method"@[0] != "params"@[0]);
    assert("method"@[0] != "result"@[0]);
    assert("method"@[0] != "error"@[0]);
    assert("result"@[0] != "error"@[0]);
    assert("params"@[0] != "result"@[0]);
    assert("params"@[0] != "error"@[0]);
    assert("code"@[0] != "message"@[0]);
    assert("code"@[0] != "data"@[0]);
    assert("message"@[0] != "data"@[0]);
}

/// Writing a message as JSON and reading it back gives the message, for
/// every message that can be told apart on reading (see [`round_trips`]).
pub proof fn lemma_message_roundtrip(m: MessageV)
    requires
        round_trips(m),
        m matches MessageV::Request { id, .. } ==> i64::MIN <= id <= i64::MAX,
        m matches MessageV::Response { id, error, .. } ==> i64::MIN <= id <= i64::MAX && (
        error matches Some(e) ==> i64::MIN <= e.code <= i64::MAX),
    ensures
        spec_parse_message(message_json(m)) == Ok::<MessageV, ParseFailure>(m),
{
    lemma_keys_distinct();
    let j = message_json(m);
    match m {
        MessageV::Request { id, method, params } => {
            let es = j->Object_0;
            assert(crate::json::find_key(es, "jsonrpc"@) == Some(0int));
            assert(crate::json::find_key(es.drop_first(), "id"@) == Some(0int));
            assert(crate::json::find_key(es, "id"@) == Some(1int));
            let e1 = es.drop_first();
            let e2 = e1.drop_first();
            let e3 = e2.drop_first();
            let e4 = e3.drop_first();
            assert(crate::json::find_key(e2, "method"@) == Some(0int));
            assert(crate::json::find_key(e1, "method"@) == Some(1int));
            assert(crate::json::find_key(es, "method"@) == Some(2int));
            assert(crate::json::find_key(e3, "params"@) == Some(0int));
            assert(crate::json::find_key(e2, "params"@) == Some(1int));
            assert(crate::json::find_key(e1, "params"@) == Some(2int));
            assert(crate::json::find_key(es, "params"@) == Some(3int));
            assert(crate::json::find_key(e4, "result"@) is None);
            assert(crate::json::find_key(e3, "result"@) is None);
            assert(crate::json::find_key(e2, "result"@) is None);
            assert(crate::json::find_key(e1, "result"@) is None);
            assert(crate::json::find_key(es, "result"@) is None);
            assert(crate::json::find_key(e4, "error"@) is None);
            assert(crate::json::find_key(e3, "error"@) is None);
            assert(crate::json::find_key(e2, "error"@) is None);
            assert(crate::json::find_key(e1, "error"@) is None);
            assert(crate::json::find_key(es, "error"@) is None);
        },
        MessageV::Notification { method, params } => {
            let es = j->Object_0;
            assert(crate::json::find_key(es, "jsonrpc"@) == Some(0int));
            assert(crate::json::find_key(es.drop_first(), "method"@) == Some(0int));
            assert(crate::json::find_key(es, "method"@) == Some(1int));
            let e1 = es.drop_first();
            let e2 = e1.drop_first();
            let e3 = e2.drop_first();
            assert(crate::json::find_key(e2, "params"@) == Some(0int));
            assert(crate::json::find_key(e1, "params"@) == Some(1int));
            assert(crate::json::find_key(es, "params"@) == Some(2int));
            assert(crate::json::find_key(e3, "id"@) is None);
            assert(crate::json::find_key(e2, "id"@) is None);
            assert(crate::json::find_key(e1, "id"@) is None);
            assert(crate::json::find_key(es, "id"@) is None);
            assert(crate::json::find_key(e3, "result"@) is None);
            assert(crate::json::find_key(e2, "result"@) is None);
            assert(crate::json::find_key(e1, "result"@) is None);
            assert(crate::json::find_key(es, "result"@) is None);
            assert(crate::json::find_key(e3, "error"@) is None);
            assert(crate::json::find_key(e2, "error"@) is None);
            assert(crate::json::find_key(e1, "error"@) is None);
            assert(crate::json::find_key(es, "error"@) is None);
        },
        MessageV::Response { id, result, error } => {
            let es = j->Object_0;
            let e2 = es.drop_first().drop_first();
            assert(es.len() == 3);
            assert(crate::json::find_key(es, "jsonrpc"@) == Some(0int));
            assert(crate::json::find_key(es.drop_first(), "id"@) == Some(0int));
            assert(crate::json::find_key(es, "id"@) == Some(1int));
            assert(crate::json::find_key(e2.drop_first(), "method"@) is None);
            assert(crate::json::find_key(e2, "method"@) is None);
            assert(crate::json::find_key(es.drop_first(), "method"@) is None);
            assert(crate::json::find_key(es, "method"@) is None);
            match result {
                Some(r) => {
                    assert(crate::json::find_key(e2, "result"@) == Some(0int));
                    assert(crate::json::find_key(es.drop_first(), "result"@) == Some(1int));
                    assert(crate::json::find_key(es, "result"@) == Some(2int));
                    assert(crate::json::find_key(e2.drop_first(), "error"@) is None);
                    assert(crate::json::find_key(e2, "error"@) is None);
                    assert(crate::json::find_key(es.drop_first(), "error"@) is None);
                    assert(crate::json::find_key(es, "error"@) is None);
                },
                None => {
                    let e = error.unwrap();
                    assert(crate::json::find_key(e2, "error"@) == Some(0int));
                    assert(crate::json::find_key(es.drop_first(), "error"@) == Some(1int));
                    assert(crate::json::find_key(es, "error"@) == Some(2int));
                    assert(crate::json::find_key(e2.drop_first(), "result"@) is None);
                    assert(crate::json::find_key(e2, "result"@) is None);
                    assert(crate::json::find_key(es.drop_first(), "result"@) is None);
                    assert(crate::json::find_key(es, "result"@) is None);
                    let ej = rpc_error_json(e);
                    let ees = ej->Object_0;
                    assert(crate::json::find_key(ees, "code"@) == Some(0int));
                    assert(crate::json::find_key(ees.drop_first(), "message"@) == Some(0int));
                    assert(crate::json::find_key(ees, "message"@) == Some(1int));
                    match e.data {
                        Some(d) => {
                            assert(crate::json::find_key(ees.drop_first().drop_first(), "data"@) == Some(0int));
                            assert(crate::json::find_key(ees.drop_first(), "data"@) == Some(1int));
                            assert(crate::json::find_key(ees, "data"@) == Some(2int));
                        },
                        None => {
                            assert(crate::json::find_key(ees.drop_first().drop_first(), "data"@) is None);
                            assert(crate::json::find_key(ees.drop_first(), "data"@) is None);
                            assert(crate::json::find_key(ees, "data"@) is None);
                        },
                    }
                    assert(read_rpc_error(ej) == Some(e));
                },
            }
        },
    }
}

} // verus!
