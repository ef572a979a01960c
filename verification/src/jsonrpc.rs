//! JSON-RPC 2.0 framing: strict request and response validation, the
//! predefined error codes, and the writers for replies and requests.

use vstd::prelude::*;
use crate::json::{Json, JsonV, ObjBuilder, spec_get, view_members};

verus! {

use vstd::string::StringSliceAdditionalSpecFns;

/// A request identifier: an integer or a string.
#[derive(Debug, PartialEq, Eq)]
pub enum JsonRpcRequestId {
    Integer(i64),
    String(Vec<u8>),
}

/// The mathematical form of a request identifier.
#[verifier::ext_equal]
pub enum JsonRpcRequestIdV {
    Integer(i64),
    String(Seq<u8>),
}

impl View for JsonRpcRequestId {
    type V = JsonRpcRequestIdV;

    open spec fn view(&self) -> JsonRpcRequestIdV {
        match self {
            JsonRpcRequestId::Integer(n) => JsonRpcRequestIdV::Integer(*n),
            JsonRpcRequestId::String(s) => JsonRpcRequestIdV::String(s@),
        }
    }
}

impl JsonRpcRequestId {
    /// The identifier as a JSON value.
    pub fn to_json(&self) -> (r: Json)
        ensures
            r@ == spec_request_id_to_json(self@),
    {
        match self {
            JsonRpcRequestId::Integer(n) => {
                if *n >= 0 {
                    Json::Num(*n as u64)
                } else {
                    Json::Num(0)
                }
            },
            JsonRpcRequestId::String(s) => Json::Str(crate::json::clone_bytes(s)),
        }
    }

    /// A structural copy.
    pub fn clone_id(&self) -> (r: JsonRpcRequestId)
        ensures
            r@ == self@,
    {
        match self {
            JsonRpcRequestId::Integer(n) => JsonRpcRequestId::Integer(*n),
            JsonRpcRequestId::String(s) => JsonRpcRequestId::String(crate::json::clone_bytes(s)),
        }
    }
}

/// The wire form of a request identifier.  A negative integer identifier
/// never arises from [`spec_json_to_request_id`], so the zero stands in
/// for it, keeping the writer total.
pub open spec fn spec_request_id_to_json(id: JsonRpcRequestIdV) -> JsonV {
    match id {
        JsonRpcRequestIdV::Integer(n) => if n >= 0 {
            JsonV::Num(n as u64)
        } else {
            JsonV::Num(0)
        },
        JsonRpcRequestIdV::String(s) => JsonV::Str(s),
    }
}

/// Reads an identifier: an unsigned integer that fits, or a string.
pub open spec fn spec_json_to_request_id(j: JsonV) -> Option<JsonRpcRequestIdV> {
    match j {
        JsonV::Num(n) => if n <= i64::MAX as u64 {
            Some(JsonRpcRequestIdV::Integer(n as i64))
        } else {
            None
        },
        JsonV::Str(s) => Some(JsonRpcRequestIdV::String(s)),
        _ => None,
    }
}

/// Reads an identifier from a JSON value.
pub fn request_id_from_json(j: &Json) -> (r: Option<JsonRpcRequestId>)
    ensures
        match r {
            Some(id) => spec_json_to_request_id(j@) == Some(id@),
            None => spec_json_to_request_id(j@) is None,
        },
{
    match j {
        Json::Num(n) => {
            if *n <= i64::MAX as u64 {
                Some(JsonRpcRequestId::Integer(*n as i64))
            } else {
                None
            }
        },
        Json::Str(s) => Some(JsonRpcRequestId::String(crate::json::clone_bytes(s))),
        _ => None,
    }
}

/// The predefined JSON-RPC 2.0 errors.
#[derive(Debug, Clone, Copy, PartialEq, Eq, Structural)]
pub enum JsonRpcPredefinedError {
    /// Invalid JSON was received by the server.
    ParseError,
    /// The JSON sent is not a valid request object.
    InvalidRequest,
    /// The method does not exist or is not available.
    MethodNotFound,
    /// Invalid method parameters.
    InvalidParams,
    /// Internal JSON-RPC error.
    InternalError,
}

impl JsonRpcPredefinedError {
    pub fn code(self) -> (r: i32)
        ensures
            r == spec_error_code(self),
    {
        match self {
            Self::ParseError => -32700,
            Self::InvalidRequest => -32600,
            Self::MethodNotFound => -32601,
            Self::InvalidParams => -32602,
            Self::InternalError => -32603,
        }
    }

    pub fn message(self) -> (r: &'static str)
        ensures
            r@ == spec_error_message(self),
    {
        match self {
            Self::ParseError => "Parse error",
            Self::InvalidRequest => "Invalid Request",
            Self::MethodNotFound => "Method not found",
            Self::InvalidParams => "Invalid params",
            Self::InternalError => "Internal error",
        }
    }
}

/// The code of each predefined error.
pub open spec fn spec_error_code(e: JsonRpcPredefinedError) -> i32 {
    match e {
        JsonRpcPredefinedError::ParseError => -32700i32,
        JsonRpcPredefinedError::InvalidRequest => -32600i32,
        JsonRpcPredefinedError::MethodNotFound => -32601i32,
        JsonRpcPredefinedError::InvalidParams => -32602i32,
        JsonRpcPredefinedError::InternalError => -32603i32,
    }
}

/// The message of each predefined error.
pub open spec fn spec_error_message(e: JsonRpcPredefinedError) -> Seq<char> {
    match e {
        JsonRpcPredefinedError::ParseError => ("Parse error")@,
        JsonRpcPredefinedError::InvalidRequest => ("Invalid Request")@,
        JsonRpcPredefinedError::MethodNotFound => ("Method not found")@,
        JsonRpcPredefinedError::InvalidParams => ("Invalid params")@,
        JsonRpcPredefinedError::InternalError => ("Internal error")@,
    }
}

/// The predefined JSON-RPC 2.0 error codes, as the server-side framing
/// names them.
#[derive(Debug, Clone, Copy, PartialEq, Eq, Structural)]
pub enum JsonRpcPredefinedErrorCode {
    ParseError,
    InvalidRequest,
    MethodNotFound,
    InvalidParams,
    InternalError,
}

/// The same error in the client-side enumeration.
pub open spec fn spec_code_as_error(c: JsonRpcPredefinedErrorCode) -> JsonRpcPredefinedError {
    match c {
        JsonRpcPredefinedErrorCode::ParseError => JsonRpcPredefinedError::ParseError,
        JsonRpcPredefinedErrorCode::InvalidRequest => JsonRpcPredefinedError::InvalidRequest,
        JsonRpcPredefinedErrorCode::MethodNotFound => JsonRpcPredefinedError::MethodNotFound,
        JsonRpcPredefinedErrorCode::InvalidParams => JsonRpcPredefinedError::InvalidParams,
        JsonRpcPredefinedErrorCode::InternalError => JsonRpcPredefinedError::InternalError,
    }
}

impl JsonRpcPredefinedErrorCode {
    pub fn code(&self) -> (r: i32)
        ensures
            r == spec_error_code(spec_code_as_error(*self)),
    {
        self.as_error().code()
    }

    pub fn message(&self) -> (r: &'static str)
        ensures
            r@ == spec_error_message(spec_code_as_error(*self)),
    {
        self.as_error().message()
    }

    /// The same error in the client-side enumeration.
    pub fn as_error(&self) -> (r: JsonRpcPredefinedError)
        ensures
            r == spec_code_as_error(*self),
    {
        match self {
            Self::ParseError => JsonRpcPredefinedError::ParseError,
            Self::InvalidRequest => JsonRpcPredefinedError::InvalidRequest,
            Self::MethodNotFound => JsonRpcPredefinedError::MethodNotFound,
            Self::InvalidParams => JsonRpcPredefinedError::InvalidParams,
            Self::InternalError => JsonRpcPredefinedError::InternalError,
        }
    }
}

/// A validated request: `jsonrpc` was `2.0`, `method` a string, `id` an
/// integer or string if present, `params` an object or array if present.
#[derive(Debug, PartialEq, Eq)]
pub struct JsonRpcRequest {
    pub method: Vec<u8>,
    pub id: Option<JsonRpcRequestId>,
    pub params: Option<Json>,
}

/// The mathematical form of a validated request.
#[verifier::ext_equal]
pub struct JsonRpcRequestV {
    pub method: Seq<u8>,
    pub id: Option<JsonRpcRequestIdV>,
    pub params: Option<JsonV>,
}

impl View for JsonRpcRequest {
    type V = JsonRpcRequestV;

    open spec fn view(&self) -> JsonRpcRequestV {
        JsonRpcRequestV {
            method: self.method@,
            id: match self.id {
                Some(id) => Some(id@),
                None => None,
            },
            params: match self.params {
                Some(p) => Some(p@),
                None => None,
            },
        }
    }
}

/// One member folded into the validation state, or a violation.
pub open spec fn spec_request_member(
    st: JsonRpcRequestPartsV,
    key: Seq<u8>,
    v: JsonV,
) -> Option<JsonRpcRequestPartsV> {
    if key == ("jsonrpc").spec_bytes() {
        if v == JsonV::Str(("2.0").spec_bytes()) {
            Some(JsonRpcRequestPartsV { has_jsonrpc: true, ..st })
        } else {
            None
        }
    } else if key == ("method").spec_bytes() {
        match v {
            JsonV::Str(m) => Some(JsonRpcRequestPartsV { method: Some(m), ..st }),
            _ => None,
        }
    } else if key == ("id").spec_bytes() {
        match spec_json_to_request_id(v) {
            Some(id) => Some(JsonRpcRequestPartsV { id: Some(id), ..st }),
            None => None,
        }
    } else if key == ("params").spec_bytes() {
        match v {
            JsonV::Obj(_) => Some(JsonRpcRequestPartsV { params: Some(v), ..st }),
            JsonV::Arr(_) => Some(JsonRpcRequestPartsV { params: Some(v), ..st }),
            _ => None,
        }
    } else {
        Some(st)
    }
}

/// The validation state while reading a request's members.
#[verifier::ext_equal]
pub struct JsonRpcRequestPartsV {
    pub has_jsonrpc: bool,
    pub method: Option<Seq<u8>>,
    pub id: Option<JsonRpcRequestIdV>,
    pub params: Option<JsonV>,
}

/// The state before any member.
pub open spec fn spec_request_parts_init() -> JsonRpcRequestPartsV {
    JsonRpcRequestPartsV { has_jsonrpc: false, method: None, id: None, params: None }
}

/// Folds a request's members front to back.
pub open spec fn spec_request_fold(
    st: JsonRpcRequestPartsV,
    members: Seq<(Seq<u8>, JsonV)>,
) -> Option<JsonRpcRequestPartsV>
    decreases members.len(),
{
    if members.len() == 0 {
        Some(st)
    } else {
        match spec_request_member(st, members[0].0, members[0].1) {
            Some(next) => spec_request_fold(next, members.skip(1)),
            None => None,
        }
    }
}

/// What a JSON value validates to as a request: it must be an object whose
/// members pass the fold, with `jsonrpc` seen and a method present.
pub open spec fn spec_request_from_json(j: JsonV) -> Option<JsonRpcRequestV> {
    match j {
        JsonV::Obj(members) => match spec_request_fold(spec_request_parts_init(), members) {
            Some(st) => {
                if st.has_jsonrpc && st.method is Some {
                    Some(
                        JsonRpcRequestV {
                            method: st.method->Some_0,
                            id: st.id,
                            params: st.params,
                        },
                    )
                } else {
                    None
                }
            },
            None => None,
        },
        _ => None,
    }
}

/// Folding one more member continues the fold.
pub proof fn lemma_request_fold_snoc(
    st: JsonRpcRequestPartsV,
    members: Seq<(Seq<u8>, JsonV)>,
    x: (Seq<u8>, JsonV),
)
    ensures
        spec_request_fold(st, members.push(x)) == match spec_request_fold(st, members) {
            Some(mid) => spec_request_member(mid, x.0, x.1),
            None => None,
        },
    decreases members.len(),
{
    reveal_with_fuel(spec_request_fold, 3);
    if members.len() == 0 {
        assert(members.push(x).skip(1) =~= Seq::<(Seq<u8>, JsonV)>::empty());
    } else {
        assert(members.push(x).skip(1) =~= members.skip(1).push(x));
        match spec_request_member(st, members[0].0, members[0].1) {
            Some(next) => {
                lemma_request_fold_snoc(next, members.skip(1), x);
            },
            None => {},
        }
    }
}

/// A fold that fails on a prefix fails on the whole member list.
pub proof fn lemma_request_fold_prefix_none(
    st: JsonRpcRequestPartsV,
    members: Seq<(Seq<u8>, JsonV)>,
    k: int,
)
    requires
        0 <= k <= members.len(),
        spec_request_fold(st, members.take(k)) is None,
    ensures
        spec_request_fold(st, members) is None,
    decreases k,
{
    reveal_with_fuel(spec_request_fold, 2);
    assert(k > 0) by {
        if k == 0 {
            assert(members.take(0) =~= Seq::<(Seq<u8>, JsonV)>::empty());
        }
    }
    assert(members.take(k)[0] == members[0]);
    match spec_request_member(st, members[0].0, members[0].1) {
        Some(next) => {
            assert(members.take(k).skip(1) =~= members.skip(1).take(k - 1));
            lemma_request_fold_prefix_none(next, members.skip(1), k - 1);
        },
        None => {},
    }
}

impl JsonRpcRequest {
    /// Validates a parsed JSON value as a request.  Returns the invalid
    /// request error exactly when the value does not have the required
    /// shape.
    pub fn from_json(j: &Json) -> (r: Result<JsonRpcRequest, JsonRpcPredefinedError>)
        ensures
            match r {
                Ok(req) => spec_request_from_json(j@) == Some(req@),
                Err(e) => spec_request_from_json(j@) is None && e
                    == JsonRpcPredefinedError::InvalidRequest,
            },
    {
        broadcast use crate::json::lemma_view_members;

        let members = match j.as_obj() {
            Some(members) => members,
            None => {
                return Err(JsonRpcPredefinedError::InvalidRequest);
            },
        };
        let ghost mview = view_members(members@);
        let ghost st0 = spec_request_parts_init();
        let mut has_jsonrpc = false;
        let mut method: Option<Vec<u8>> = None;
        let mut id: Option<JsonRpcRequestId> = None;
        let mut params: Option<Json> = None;
        let mut i: usize = 0;
        assert(mview.take(0) =~= Seq::<(Seq<u8>, JsonV)>::empty());
        while i < members.len()
            invariant
                0 <= i <= members@.len(),
                mview == view_members(members@),
                mview.len() == members@.len(),
                spec_request_fold(st0, mview.take(i as int)) == Some(
                    JsonRpcRequestPartsV {
                        has_jsonrpc: has_jsonrpc,
                        method: match method {
                            Some(m) => Some(m@),
                            None => None,
                        },
                        id: match id {
                            Some(x) => Some(x@),
                            None => None,
                        },
                        params: match params {
                            Some(p) => Some(p@),
                            None => None,
                        },
                    },
                ),
            decreases members@.len() - i,
        {
            proof {
                lemma_request_fold_snoc(st0, mview.take(i as int), mview[i as int]);
                assert(mview.take(i as int).push(mview[i as int]) =~= mview.take(i + 1));
                assert(mview[i as int] == (members@[i as int].0@, members@[i as int].1@));
            }
            let key = &members[i].0;
            let value = &members[i].1;
            if crate::json::bytes_eq(key.as_slice(), ("jsonrpc").as_bytes()) {
                if value.is_str("2.0") {
                    has_jsonrpc = true;
                } else {
                    proof {
                        lemma_request_fold_prefix_none(st0, mview, i + 1);
                    }
                    return Err(JsonRpcPredefinedError::InvalidRequest);
                }
            } else if crate::json::bytes_eq(key.as_slice(), ("method").as_bytes()) {
                match value {
                    Json::Str(m) => {
                        method = Some(crate::json::clone_bytes(m));
                    },
                    _ => {
                        proof {
                            lemma_request_fold_prefix_none(st0, mview, i + 1);
                        }
                        return Err(JsonRpcPredefinedError::InvalidRequest);
                    },
                }
            } else if crate::json::bytes_eq(key.as_slice(), ("id").as_bytes()) {
                match request_id_from_json(value) {
                    Some(parsed) => {
                        id = Some(parsed);
                    },
                    None => {
                        proof {
                            lemma_request_fold_prefix_none(st0, mview, i + 1);
                        }
                        return Err(JsonRpcPredefinedError::InvalidRequest);
                    },
                }
            } else if crate::json::bytes_eq(key.as_slice(), ("params").as_bytes()) {
                let shape_ok = match value {
                    Json::Obj(_) => true,
                    Json::Arr(_) => true,
                    _ => false,
                };
                if shape_ok {
                    params = Some(value.deep_clone());
                } else {
                    proof {
                        lemma_request_fold_prefix_none(st0, mview, i + 1);
                    }
                    return Err(JsonRpcPredefinedError::InvalidRequest);
                }
            }
            i += 1;
        }
        proof {
            assert(mview.take(i as int) =~= mview);
        }
        if !has_jsonrpc {
            return Err(JsonRpcPredefinedError::InvalidRequest);
        }
        match method {
            Some(m) => Ok(JsonRpcRequest { method: m, id, params }),
            None => Err(JsonRpcPredefinedError::InvalidRequest),
        }
    }

    /// The method name.
    pub fn method(&self) -> (r: &Vec<u8>)
        ensures
            r == &self.method,
    {
        &self.method
    }

    /// The request identifier, when the request carried one.
    pub fn id(&self) -> (r: &Option<JsonRpcRequestId>)
        ensures
            r == &self.id,
    {
        &self.id
    }

    /// The parameters, when the request carried any.
    pub fn params(&self) -> (r: &Option<Json>)
        ensures
            r == &self.params,
    {
        &self.params
    }
}

/// The wire form of a success reply.
pub open spec fn spec_response_ok(id: JsonRpcRequestIdV, result: JsonV) -> JsonV {
    JsonV::Obj(
        seq![
            (("jsonrpc").spec_bytes(), JsonV::Str(("2.0").spec_bytes())),
            (("id").spec_bytes(), spec_request_id_to_json(id)),
            (("result").spec_bytes(), result),
        ],
    )
}

/// Writes a success reply.
pub fn write_response_ok(id: &JsonRpcRequestId, result: Json) -> (r: Json)
    ensures
        r@ == spec_response_ok(id@, result@),
{
    let mut b = ObjBuilder::new();
    b.member("jsonrpc", Json::str_of("2.0"));
    b.member("id", id.to_json());
    b.member("result", result);
    proof {
        assert(b@ =~= spec_response_ok(id@, result@)->Obj_0);
    }
    b.build()
}

/// The wire form of an error reply; a request whose identifier could not
/// be read is answered with a null identifier.
pub open spec fn spec_response_err(
    id: Option<JsonRpcRequestIdV>,
    code: i32,
    message: Seq<u8>,
    data: Option<JsonV>,
) -> JsonV {
    JsonV::Obj(
        seq![
            (("jsonrpc").spec_bytes(), JsonV::Str(("2.0").spec_bytes())),
            (
                ("id").spec_bytes(),
                match id {
                    Some(x) => spec_request_id_to_json(x),
                    None => JsonV::Null,
                },
            ),
            (
                ("error").spec_bytes(),
                JsonV::Obj(
                    match data {
                        Some(d) => seq![
                            (("code").spec_bytes(), spec_i32_json(code)),
                            (("message").spec_bytes(), JsonV::Str(message)),
                            (("data").spec_bytes(), d),
                        ],
                        None => seq![
                            (("code").spec_bytes(), spec_i32_json(code)),
                            (("message").spec_bytes(), JsonV::Str(message)),
                        ],
                    },
                ),
            ),
        ],
    )
}

/// A signed code as a JSON value: non-negative codes are plain numbers,
/// negative ones carry their minus sign in raw number text.
pub open spec fn spec_i32_json(code: i32) -> JsonV {
    if code >= 0 {
        JsonV::Num(code as u64)
    } else {
        JsonV::NumRaw(seq![45u8].add(crate::text::spec_u64_dec((-(code as int)) as u64)))
    }
}

/// Writes a signed code.
pub fn i32_to_json(code: i32) -> (r: Json)
    ensures
        r@ == spec_i32_json(code),
{
    if code >= 0 {
        Json::Num(code as u64)
    } else {
        let magnitude: u64 = (-(code as i64)) as u64;
        let digits = crate::text::u64_to_dec(magnitude);
        let mut raw: Vec<u8> = Vec::new();
        raw.push(45);
        let mut i: usize = 0;
        while i < digits.len()
            invariant
                0 <= i <= digits@.len(),
                raw@ == seq![45u8] + digits@.take(i as int),
            decreases digits@.len() - i,
        {
            raw.push(digits[i]);
            assert(raw@ =~= seq![45u8] + digits@.take(i + 1));
            i += 1;
        }
        assert(digits@.take(digits@.len() as int) =~= digits@);
        Json::NumRaw(raw)
    }
}

/// Writes an error reply without data.
pub fn write_response_err(id: Option<&JsonRpcRequestId>, code: i32, message: &str) -> (r: Json)
    ensures
        r@ == spec_response_err(
            match id {
                Some(x) => Some(x@),
                None => None,
            },
            code,
            message.spec_bytes(),
            None,
        ),
{
    let mut err = ObjBuilder::new();
    err.member("code", i32_to_json(code));
    err.member("message", Json::str_of(message));
    proof {
        assert(err@ =~= seq![
            (("code").spec_bytes(), spec_i32_json(code)),
            (("message").spec_bytes(), JsonV::Str(message.spec_bytes())),
        ]);
    }
    let mut b = ObjBuilder::new();
    b.member("jsonrpc", Json::str_of("2.0"));
    b.member(
        "id",
        match id {
            Some(x) => x.to_json(),
            None => Json::Null,
        },
    );
    b.member("error", err.build());
    let r = b.build();
    proof {
        let target = spec_response_err(
            match id {
                Some(x) => Some(x@),
                None => None,
            },
            code,
            message.spec_bytes(),
            None,
        );
        assert(crate::json::spec_members(r@) =~= crate::json::spec_members(target));
        assert(r@ =~= target);
    }
    r
}

/// Writes an error reply with data.
pub fn write_response_err_with_data(
    id: Option<&JsonRpcRequestId>,
    code: i32,
    message: &str,
    data: Json,
) -> (r: Json)
    ensures
        r@ == spec_response_err(
            match id {
                Some(x) => Some(x@),
                None => None,
            },
            code,
            message.spec_bytes(),
            Some(data@),
        ),
{
    let ghost datav = data@;
    let mut err = ObjBuilder::new();
    err.member("code", i32_to_json(code));
    err.member("message", Json::str_of(message));
    err.member("data", data);
    proof {
        assert(err@ =~= seq![
            (("code").spec_bytes(), spec_i32_json(code)),
            (("message").spec_bytes(), JsonV::Str(message.spec_bytes())),
            (("data").spec_bytes(), datav),
        ]);
    }
    let mut b = ObjBuilder::new();
    b.member("jsonrpc", Json::str_of("2.0"));
    b.member(
        "id",
        match id {
            Some(x) => x.to_json(),
            None => Json::Null,
        },
    );
    b.member("error", err.build());
    let r = b.build();
    proof {
        let target = spec_response_err(
            match id {
                Some(x) => Some(x@),
                None => None,
            },
            code,
            message.spec_bytes(),
            Some(datav),
        );
        assert(crate::json::spec_members(r@) =~= crate::json::spec_members(target));
        assert(r@ =~= target);
    }
    r
}

/// The wire form of a request: the identifier member appears only when an
/// identifier is given.
pub open spec fn spec_write_request(
    id: Option<JsonRpcRequestIdV>,
    method: Seq<u8>,
    params: JsonV,
) -> JsonV {
    match id {
        Some(x) => JsonV::Obj(
            seq![
                (("jsonrpc").spec_bytes(), JsonV::Str(("2.0").spec_bytes())),
                (("id").spec_bytes(), spec_request_id_to_json(x)),
                (("method").spec_bytes(), JsonV::Str(method)),
                (("params").spec_bytes(), params),
            ],
        ),
        None => JsonV::Obj(
            seq![
                (("jsonrpc").spec_bytes(), JsonV::Str(("2.0").spec_bytes())),
                (("method").spec_bytes(), JsonV::Str(method)),
                (("params").spec_bytes(), params),
            ],
        ),
    }
}

/// Writes a request line's value.
pub fn write_request(id: Option<&JsonRpcRequestId>, method: &str, params: Json) -> (r: Json)
    ensures
        r@ == spec_write_request(
            match id {
                Some(x) => Some(x@),
                None => None,
            },
            method.spec_bytes(),
            params@,
        ),
{
    let mut b = ObjBuilder::new();
    b.member("jsonrpc", Json::str_of("2.0"));
    match id {
        Some(x) => {
            b.member("id", x.to_json());
        },
        None => {},
    }
    b.member("method", Json::str_of(method));
    b.member("params", params);
    let r = b.build();
    proof {
        let target = spec_write_request(
            match id {
                Some(x) => Some(x@),
                None => None,
            },
            method.spec_bytes(),
            params@,
        );
        assert(crate::json::spec_members(r@) =~= crate::json::spec_members(target));
        assert(r@ =~= target);
    }
    r
}

impl JsonRpcRequest {
    /// Reads one line of bytes as a request: a line that is not JSON is a
    /// parse error, JSON without the required shape an invalid request.
    ///
    /// The length bound is a machine limit of the JSON scanner, whose fuel
    /// counts roughly twice the input length in a machine word; every line
    /// the transport hands over fits its receive buffer, far below it.
    pub fn parse(line: &[u8]) -> (r: Result<JsonRpcRequest, JsonRpcPredefinedError>)
        requires
            line@.len() <= 1000000000,
        ensures
            match r {
                Ok(req) => crate::text::spec_parse_json(line@) matches Some(j)
                    && spec_request_from_json(j) == Some(req@),
                Err(e) => {
                    ||| (crate::text::spec_parse_json(line@) is None && e
                        == JsonRpcPredefinedError::ParseError)
                    ||| (crate::text::spec_parse_json(line@) matches Some(j)
                        && spec_request_from_json(j) is None && e
                        == JsonRpcPredefinedError::InvalidRequest)
                },
            },
    {
        match crate::text::parse_json(line) {
            Some(j) => JsonRpcRequest::from_json(&j),
            None => Err(JsonRpcPredefinedError::ParseError),
        }
    }
}

/// A validated response: `jsonrpc` was `2.0`, an `id` member was present,
/// and exactly one of `result` and `error` was present, the error carrying
/// an integer code.
#[derive(Debug, PartialEq, Eq)]
pub struct JsonRpcResponse {
    pub id: Option<JsonRpcRequestId>,
    pub outcome: Result<Json, Json>,
}

/// The mathematical form of a validated response.
#[verifier::ext_equal]
pub struct JsonRpcResponseV {
    pub id: Option<JsonRpcRequestIdV>,
    pub outcome: Result<JsonV, JsonV>,
}

impl View for JsonRpcResponse {
    type V = JsonRpcResponseV;

    open spec fn view(&self) -> JsonRpcResponseV {
        JsonRpcResponseV {
            id: match self.id {
                Some(x) => Some(x@),
                None => None,
            },
            outcome: match &self.outcome {
                Ok(v) => Ok(v@),
                Err(e) => Err(e@),
            },
        }
    }
}

/// True for the raw text of an integer: an optional minus sign and at
/// least one digit.
pub open spec fn spec_int_raw(s: Seq<u8>) -> bool {
    if s.len() == 0 {
        false
    } else if s[0] == 45 {
        s.len() > 1 && (forall|k: int| 1 <= k < s.len() ==> 48 <= #[trigger] s[k] <= 57)
    } else {
        forall|k: int| 0 <= k < s.len() ==> 48 <= #[trigger] s[k] <= 57
    }
}

/// True when the value can be an error member: an object whose `code` is
/// an integer.
pub open spec fn spec_error_shape(v: JsonV) -> bool {
    match spec_get(v, ("code").spec_bytes()) {
        Some(JsonV::Num(_)) => true,
        Some(JsonV::NumRaw(raw)) => spec_int_raw(raw),
        _ => false,
    }
}

/// The validation state while reading a response's members.
#[verifier::ext_equal]
pub struct JsonRpcResponsePartsV {
    pub has_jsonrpc: bool,
    pub has_id: bool,
    pub id: Option<JsonRpcRequestIdV>,
    pub result: Option<JsonV>,
    pub error: Option<JsonV>,
}

/// The state before any member.
pub open spec fn spec_response_parts_init() -> JsonRpcResponsePartsV {
    JsonRpcResponsePartsV {
        has_jsonrpc: false,
        has_id: false,
        id: None,
        result: None,
        error: None,
    }
}

/// One member folded into the response validation state, or a violation.
pub open spec fn spec_response_member(
    st: JsonRpcResponsePartsV,
    key: Seq<u8>,
    v: JsonV,
) -> Option<JsonRpcResponsePartsV> {
    if key == ("jsonrpc").spec_bytes() {
        if v == JsonV::Str(("2.0").spec_bytes()) {
            Some(JsonRpcResponsePartsV { has_jsonrpc: true, ..st })
        } else {
            None
        }
    } else if key == ("id").spec_bytes() {
        if v is Null {
            Some(JsonRpcResponsePartsV { has_id: true, id: None, ..st })
        } else {
            match spec_json_to_request_id(v) {
                Some(id) => Some(JsonRpcResponsePartsV { has_id: true, id: Some(id), ..st }),
                None => None,
            }
        }
    } else if key == ("result").spec_bytes() {
        Some(JsonRpcResponsePartsV { result: Some(v), ..st })
    } else if key == ("error").spec_bytes() {
        if spec_error_shape(v) {
            Some(JsonRpcResponsePartsV { error: Some(v), ..st })
        } else {
            None
        }
    } else {
        Some(st)
    }
}

/// Folds a response's members front to back.
pub open spec fn spec_response_fold(
    st: JsonRpcResponsePartsV,
    members: Seq<(Seq<u8>, JsonV)>,
) -> Option<JsonRpcResponsePartsV>
    decreases members.len(),
{
    if members.len() == 0 {
        Some(st)
    } else {
        match spec_response_member(st, members[0].0, members[0].1) {
            Some(next) => spec_response_fold(next, members.skip(1)),
            None => None,
        }
    }
}

/// What a JSON value validates to as a response.
pub open spec fn spec_response_from_json(j: JsonV) -> Option<JsonRpcResponseV> {
    match j {
        JsonV::Obj(members) => match spec_response_fold(spec_response_parts_init(), members) {
            Some(st) => {
                if st.has_jsonrpc && st.has_id {
                    match (st.result, st.error) {
                        (Some(v), _) => Some(JsonRpcResponseV { id: st.id, outcome: Ok(v) }),
                        (None, Some(e)) => Some(
                            JsonRpcResponseV { id: st.id, outcome: Err(e) },
                        ),
                        (None, None) => None,
                    }
                } else {
                    None
                }
            },
            None => None,
        },
        _ => None,
    }
}

/// Folding one more member continues the fold.
pub proof fn lemma_response_fold_snoc(
    st: JsonRpcResponsePartsV,
    members: Seq<(Seq<u8>, JsonV)>,
    x: (Seq<u8>, JsonV),
)
    ensures
        spec_response_fold(st, members.push(x)) == match spec_response_fold(st, members) {
            Some(mid) => spec_response_member(mid, x.0, x.1),
            None => None,
        },
    decreases members.len(),
{
    reveal_with_fuel(spec_response_fold, 3);
    if members.len() == 0 {
        assert(members.push(x).skip(1) =~= Seq::<(Seq<u8>, JsonV)>::empty());
    } else {
        assert(members.push(x).skip(1) =~= members.skip(1).push(x));
        match spec_response_member(st, members[0].0, members[0].1) {
            Some(next) => {
                lemma_response_fold_snoc(next, members.skip(1), x);
            },
            None => {},
        }
    }
}

/// A fold that fails on a prefix fails on the whole member list.
pub proof fn lemma_response_fold_prefix_none(
    st: JsonRpcResponsePartsV,
    members: Seq<(Seq<u8>, JsonV)>,
    k: int,
)
    requires
        0 <= k <= members.len(),
        spec_response_fold(st, members.take(k)) is None,
    ensures
        spec_response_fold(st, members) is None,
    decreases k,
{
    reveal_with_fuel(spec_response_fold, 2);
    assert(k > 0) by {
        if k == 0 {
            assert(members.take(0) =~= Seq::<(Seq<u8>, JsonV)>::empty());
        }
    }
    assert(members.take(k)[0] == members[0]);
    match spec_response_member(st, members[0].0, members[0].1) {
        Some(next) => {
            assert(members.take(k).skip(1) =~= members.skip(1).take(k - 1));
            lemma_response_fold_prefix_none(next, members.skip(1), k - 1);
        },
        None => {},
    }
}

/// True for the raw text of an integer.
fn int_raw(s: &Vec<u8>) -> (r: bool)
    ensures
        r == spec_int_raw(s@),
{
    if s.len() == 0 {
        return false;
    }
    let start: usize = if s[0] == 45 {
        if s.len() == 1 {
            return false;
        }
        1
    } else {
        0
    };
    let mut k = start;
    while k < s.len()
        invariant
            start <= k <= s@.len(),
            forall|m: int| start <= m < k ==> 48 <= #[trigger] s@[m] <= 57,
        decreases s@.len() - k,
    {
        if s[k] < 48 || s[k] > 57 {
            return false;
        }
        k += 1;
    }
    true
}

/// True when the value can be an error member.
fn error_shape(v: &Json) -> (r: bool)
    ensures
        r == spec_error_shape(v@),
{
    match v.get("code") {
        Some(code) => match code {
            Json::Num(_) => true,
            Json::NumRaw(raw) => int_raw(raw),
            _ => false,
        },
        None => false,
    }
}

impl JsonRpcResponse {
    /// Validates a parsed JSON value as a response.
    pub fn from_json(j: &Json) -> (r: Option<JsonRpcResponse>)
        ensures
            match r {
                Some(resp) => spec_response_from_json(j@) == Some(resp@),
                None => spec_response_from_json(j@) is None,
            },
    {
        broadcast use crate::json::lemma_view_members;

        let members = match j.as_obj() {
            Some(members) => members,
            None => {
                return None;
            },
        };
        let ghost mview = view_members(members@);
        let ghost st0 = spec_response_parts_init();
        let mut has_jsonrpc = false;
        let mut has_id = false;
        let mut id: Option<JsonRpcRequestId> = None;
        let mut result: Option<Json> = None;
        let mut error: Option<Json> = None;
        let mut i: usize = 0;
        assert(mview.take(0) =~= Seq::<(Seq<u8>, JsonV)>::empty());
        while i < members.len()
            invariant
                0 <= i <= members@.len(),
                mview == view_members(members@),
                mview.len() == members@.len(),
                spec_response_fold(st0, mview.take(i as int)) == Some(
                    JsonRpcResponsePartsV {
                        has_jsonrpc: has_jsonrpc,
                        has_id: has_id,
                        id: match id {
                            Some(x) => Some(x@),
                            None => None,
                        },
                        result: match result {
                            Some(v) => Some(v@),
                            None => None,
                        },
                        error: match error {
                            Some(e) => Some(e@),
                            None => None,
                        },
                    },
                ),
            decreases members@.len() - i,
        {
            proof {
                lemma_response_fold_snoc(st0, mview.take(i as int), mview[i as int]);
                assert(mview.take(i as int).push(mview[i as int]) =~= mview.take(i + 1));
                assert(mview[i as int] == (members@[i as int].0@, members@[i as int].1@));
            }
            let key = &members[i].0;
            let value = &members[i].1;
            if crate::json::bytes_eq(key.as_slice(), ("jsonrpc").as_bytes()) {
                if value.is_str("2.0") {
                    has_jsonrpc = true;
                } else {
                    proof {
                        lemma_response_fold_prefix_none(st0, mview, i + 1);
                    }
                    return None;
                }
            } else if crate::json::bytes_eq(key.as_slice(), ("id").as_bytes()) {
                match value {
                    Json::Null => {
                        has_id = true;
                        id = None;
                    },
                    _ => {
                        match request_id_from_json(value) {
                            Some(parsed) => {
                                has_id = true;
                                id = Some(parsed);
                            },
                            None => {
                                proof {
                                    lemma_response_fold_prefix_none(st0, mview, i + 1);
                                }
                                return None;
                            },
                        }
                    },
                }
            } else if crate::json::bytes_eq(key.as_slice(), ("result").as_bytes()) {
                result = Some(value.deep_clone());
            } else if crate::json::bytes_eq(key.as_slice(), ("error").as_bytes()) {
                if error_shape(value) {
                    error = Some(value.deep_clone());
                } else {
                    proof {
                        lemma_response_fold_prefix_none(st0, mview, i + 1);
                    }
                    return None;
                }
            }
            i += 1;
        }
        proof {
            assert(mview.take(i as int) =~= mview);
        }
        if !has_jsonrpc || !has_id {
            return None;
        }
        match result {
            Some(v) => Some(JsonRpcResponse { id, outcome: Ok(v) }),
            None => match error {
                Some(e) => Some(JsonRpcResponse { id, outcome: Err(e) }),
                None => None,
            },
        }
    }

    /// Reads one line of bytes as a response.
    ///
    /// The length bound is a machine limit of the JSON scanner, whose fuel
    /// counts roughly twice the input length in a machine word; every line
    /// the transport hands over fits its receive buffer, far below it.
    pub fn parse(line: &[u8]) -> (r: Option<JsonRpcResponse>)
        requires
            line@.len() <= 1000000000,
        ensures
            match r {
                Some(resp) => crate::text::spec_parse_json(line@) matches Some(j)
                    && spec_response_from_json(j) == Some(resp@),
                None => {
                    ||| crate::text::spec_parse_json(line@) is None
                    ||| (crate::text::spec_parse_json(line@) matches Some(j)
                        && spec_response_from_json(j) is None)
                },
            },
    {
        match crate::text::parse_json(line) {
            Some(j) => JsonRpcResponse::from_json(&j),
            None => None,
        }
    }

    /// The response identifier, when the reply carried a non-null one.
    pub fn id(&self) -> (r: &Option<JsonRpcRequestId>)
        ensures
            r == &self.id,
    {
        &self.id
    }

    /// The result, or the error member.
    pub fn result(&self) -> (r: &Result<Json, Json>)
        ensures
            r == &self.outcome,
    {
        &self.outcome
    }
}


} // verus!
