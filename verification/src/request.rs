//! JSON-RPC request types: method calls, notifications, and batches, with
//! their wire encoding and decoding.

use vstd::prelude::*;
use vstd::string::StringExecFns;
use crate::json::{
    clone_value, json_text, obj_get, obj_lookup, parse_json, spec_parse, spec_text, str_eq,
    view_elems, view_fields, JsonV, JsonValue,
};

verus! {

broadcast use vstd::std_specs::vec::group_vec_axioms, vstd::seq::group_seq_axioms;

/// A String specifying the version of the JSON-RPC protocol. The only
/// version is `"2.0"`.
#[derive(Clone, Copy, Debug, PartialEq, Eq, Structural)]
pub enum Version {
    /// JSON-RPC 2.0.
    V2,
}

/// Mathematical model of a request identifier.
pub enum IdV {
    /// No id (`null`).
    Null,
    /// A numeric id.
    Num(u64),
    /// A string id.
    Str(Seq<char>),
}

/// A request identifier: a number, a string, or `null`.
#[derive(Debug, PartialEq, Eq)]
pub enum Id {
    /// No id (`null`).
    Null,
    /// A numeric id.
    Num(u64),
    /// A string id.
    Str(String),
}

impl View for Id {
    type V = IdV;

    open spec fn view(&self) -> IdV {
        match self {
            Id::Null => IdV::Null,
            Id::Num(n) => IdV::Num(*n),
            Id::Str(s) => IdV::Str(s@),
        }
    }
}

impl Id {
    /// A copy of this identifier.
    pub fn duplicate(&self) -> (r: Id)
        ensures
            r@ == self@,
    {
        match self {
            Id::Null => Id::Null,
            Id::Num(n) => Id::Num(*n),
            Id::Str(s) => Id::Str(s.clone()),
        }
    }
}

/// Mathematical model of call parameters.
pub enum ParamsV {
    /// No parameters.
    Absent,
    /// Positional parameters.
    Array(Seq<JsonV>),
    /// Named parameters.
    Object(Seq<(Seq<char>, JsonV)>),
}

/// Parameters of a call: absent, positional, or by name.
#[derive(Debug, PartialEq, Eq)]
pub enum Params {
    /// No parameters.
    Absent,
    /// Positional parameters.
    Array(Vec<JsonValue>),
    /// Named parameters.
    Object(Vec<(String, JsonValue)>),
}

impl View for Params {
    type V = ParamsV;

    open spec fn view(&self) -> ParamsV {
        match self {
            Params::Absent => ParamsV::Absent,
            Params::Array(vs) => ParamsV::Array(view_elems(vs@)),
            Params::Object(fs) => ParamsV::Object(view_fields(fs@)),
        }
    }
}

/// The default parameters of a call: none.
pub fn default_params() -> (r: Params)
    ensures
        r@ == ParamsV::Absent,
{
    Params::Absent
}

/// The default identifier of a call: `null`.
pub fn default_id() -> (r: Id)
    ensures
        r@ == IdV::Null,
{
    Id::Null
}

/// Mathematical model of a method call.
pub struct MethodCallV {
    /// The method name.
    pub method: Seq<char>,
    /// The parameters.
    pub params: ParamsV,
    /// The request identifier.
    pub id: IdV,
}

/// Represents a jsonrpc request which is a method call.
#[derive(Debug, PartialEq, Eq)]
pub struct MethodCall {
    /// A String specifying the version of the JSON-RPC protocol.
    pub jsonrpc: Version,
    /// A String containing the name of the method to be invoked.
    pub method: String,
    /// A Structured value that holds the parameter values to be used
    /// during the invocation of the method. This member MAY be omitted.
    pub params: Params,
    /// An identifier established by the Client that MUST contain a String,
    /// Number, or NULL value if included. If it is not included it is assumed
    /// to be a notification.
    pub id: Id,
}

impl View for MethodCall {
    type V = MethodCallV;

    open spec fn view(&self) -> MethodCallV {
        MethodCallV { method: self.method@, params: self.params@, id: self.id@ }
    }
}

/// Mathematical model of a notification.
pub struct NotificationV {
    /// The method name.
    pub method: Seq<char>,
    /// The parameters.
    pub params: ParamsV,
}

/// Represents a jsonrpc request which is a notification.
#[derive(Debug, PartialEq, Eq)]
pub struct Notification {
    /// A String specifying the version of the JSON-RPC protocol.
    pub jsonrpc: Version,
    /// A String containing the name of the method to be invoked.
    pub method: String,
    /// A Structured value that holds the parameter values to be used
    /// during the invocation of the method. This member MAY be omitted.
    pub params: Params,
}

impl View for Notification {
    type V = NotificationV;

    open spec fn view(&self) -> NotificationV {
        NotificationV { method: self.method@, params: self.params@ }
    }
}

/// Mathematical model of a single call.
pub enum CallV {
    /// Call method.
    MethodCall(MethodCallV),
    /// Fire notification.
    Notification(NotificationV),
    /// Invalid call.
    Invalid {
        /// Call id (if known).
        id: IdV,
    },
}

/// Represents a single jsonrpc call.
#[derive(Debug, PartialEq, Eq)]
pub enum Call {
    /// Call method.
    MethodCall(MethodCall),
    /// Fire notification.
    Notification(Notification),
    /// Invalid call.
    Invalid {
        /// Call id (if known).
        id: Id,
    },
}

impl View for Call {
    type V = CallV;

    open spec fn view(&self) -> CallV {
        match self {
            Call::MethodCall(m) => CallV::MethodCall(m@),
            Call::Notification(n) => CallV::Notification(n@),
            Call::Invalid { id } => CallV::Invalid { id: id@ },
        }
    }
}

impl From<MethodCall> for Call {
    fn from(mc: MethodCall) -> (r: Self) {
        Call::MethodCall(mc)
    }
}

impl vstd::std_specs::convert::FromSpecImpl<MethodCall> for Call {
    open spec fn obeys_from_spec() -> bool {
        true
    }

    open spec fn from_spec(mc: MethodCall) -> Call {
        Call::MethodCall(mc)
    }
}

impl From<Notification> for Call {
    fn from(n: Notification) -> (r: Self) {
        Call::Notification(n)
    }
}

impl vstd::std_specs::convert::FromSpecImpl<Notification> for Call {
    open spec fn obeys_from_spec() -> bool {
        true
    }

    open spec fn from_spec(n: Notification) -> Call {
        Call::Notification(n)
    }
}

/// The models of a sequence of calls, in order.
pub open spec fn view_calls(cs: Seq<Call>) -> Seq<CallV>
    decreases cs.len(),
{
    if cs.len() == 0 {
        Seq::empty()
    } else {
        seq![cs[0]@] + view_calls(cs.drop_first())
    }
}

/// Facts about `view_calls`: it keeps length and maps each call to its model.
pub proof fn lemma_view_calls(cs: Seq<Call>)
    ensures
        view_calls(cs).len() == cs.len(),
        forall|i: int| 0 <= i < cs.len() ==> view_calls(cs)[i] == cs[i]@,
    decreases cs.len(),
{
    if cs.len() > 0 {
        lemma_view_calls(cs.drop_first());
    }
}

/// Mathematical model of a request.
pub enum RequestV {
    /// Single request (call).
    Single(CallV),
    /// Batch of requests (calls).
    Batch(Seq<CallV>),
}

/// Represents a jsonrpc request.
#[derive(Debug, PartialEq, Eq)]
pub enum Request {
    /// Single request (call).
    Single(Call),
    /// Batch of requests (calls).
    Batch(Vec<Call>),
}

impl View for Request {
    type V = RequestV;

    open spec fn view(&self) -> RequestV {
        match self {
            Request::Single(c) => RequestV::Single(c@),
            Request::Batch(cs) => RequestV::Batch(view_calls(cs@)),
        }
    }
}

/// The JSON value a request identifier is encoded as.
pub open spec fn id_jsonv(i: IdV) -> JsonV {
    match i {
        IdV::Null => JsonV::Null,
        IdV::Num(n) => JsonV::UInt(n),
        IdV::Str(s) => JsonV::Str(s),
    }
}

/// The JSON value call parameters are encoded as.
pub open spec fn params_jsonv(p: ParamsV) -> JsonV {
    match p {
        ParamsV::Absent => JsonV::Null,
        ParamsV::Array(vs) => JsonV::Arr(vs),
        ParamsV::Object(fs) => JsonV::Obj(fs),
    }
}

/// The JSON value a method call is encoded as.
pub open spec fn method_call_jsonv(m: MethodCallV) -> JsonV {
    JsonV::Obj(
        seq![
            ("jsonrpc"@, JsonV::Str("2.0"@)),
            ("method"@, JsonV::Str(m.method)),
            ("params"@, params_jsonv(m.params)),
            ("id"@, id_jsonv(m.id)),
        ],
    )
}

/// The JSON value a notification is encoded as.
pub open spec fn notification_jsonv(n: NotificationV) -> JsonV {
    JsonV::Obj(
        seq![
            ("jsonrpc"@, JsonV::Str("2.0"@)),
            ("method"@, JsonV::Str(n.method)),
            ("params"@, params_jsonv(n.params)),
        ],
    )
}

/// The JSON value a call is encoded as.
pub open spec fn call_jsonv(c: CallV) -> JsonV {
    match c {
        CallV::MethodCall(m) => method_call_jsonv(m),
        CallV::Notification(n) => notification_jsonv(n),
        CallV::Invalid { id } => JsonV::Obj(seq![("id"@, id_jsonv(id))]),
    }
}

/// The JSON value a request is encoded as.
pub open spec fn request_jsonv(r: RequestV) -> JsonV {
    match r {
        RequestV::Single(c) => call_jsonv(c),
        RequestV::Batch(cs) => JsonV::Arr(cs.map_values(|c: CallV| call_jsonv(c))),
    }
}

/// The JSON value the parameters stand for.
fn params_to_value(p: &Params) -> (r: JsonValue)
    ensures
        r@ == params_jsonv(p@),
{
    match p {
        Params::Absent => JsonValue::Null,
        Params::Array(vs) => {
            let mut out: Vec<JsonValue> = Vec::new();
            let n = vs.len();
            let mut k: usize = 0;
            while k < n
                invariant
                    k <= n,
                    n == vs@.len(),
                    out@.len() == k,
                    forall|i: int| 0 <= i < k ==> out@[i]@ == vs@[i]@,
                decreases n - k,
            {
                let c = clone_value(&vs[k]);
                out.push(c);
                k = k + 1;
            }
            proof {
                crate::json::lemma_view_elems(vs@);
                crate::json::lemma_view_elems(out@);
                assert(view_elems(out@) =~= view_elems(vs@));
            }
            JsonValue::Arr(out)
        },
        Params::Object(fs) => {
            let mut out: Vec<(String, JsonValue)> = Vec::new();
            let n = fs.len();
            let mut k: usize = 0;
            while k < n
                invariant
                    k <= n,
                    n == fs@.len(),
                    out@.len() == k,
                    forall|i: int|
                        0 <= i < k ==> out@[i].0@ == fs@[i].0@ && out@[i].1@ == fs@[i].1@,
                decreases n - k,
            {
                let key = fs[k].0.clone();
                let val = clone_value(&fs[k].1);
                out.push((key, val));
                k = k + 1;
            }
            proof {
                crate::json::lemma_view_fields(fs@);
                crate::json::lemma_view_fields(out@);
                assert(view_fields(out@) =~= view_fields(fs@));
            }
            JsonValue::Obj(out)
        },
    }
}

/// The JSON value the identifier stands for.
pub(crate) fn id_to_value(i: &Id) -> (r: JsonValue)
    ensures
        r@ == id_jsonv(i@),
{
    match i {
        Id::Null => JsonValue::Null,
        Id::Num(n) => JsonValue::UInt(*n),
        Id::Str(s) => JsonValue::Str(s.clone()),
    }
}

impl MethodCall {
    /// The JSON value this call is encoded as.
    pub fn to_value(&self) -> (r: JsonValue)
        ensures
            r@ == method_call_jsonv(self@),
    {
        let mut fs: Vec<(String, JsonValue)> = Vec::new();
        fs.push((String::from_str("jsonrpc"), JsonValue::Str(String::from_str("2.0"))));
        fs.push((String::from_str("method"), JsonValue::Str(self.method.clone())));
        fs.push((String::from_str("params"), params_to_value(&self.params)));
        fs.push((String::from_str("id"), id_to_value(&self.id)));
        proof {
            crate::json::lemma_view_fields(fs@);
            assert(view_fields(fs@) =~= seq![
                ("jsonrpc"@, JsonV::Str("2.0"@)),
                ("method"@, JsonV::Str(self.method@)),
                ("params"@, params_jsonv(self.params@)),
                ("id"@, id_jsonv(self.id@)),
            ]);
        }
        JsonValue::Obj(fs)
    }

    /// The serialized wire form of this call.
    pub fn to_json(&self) -> (r: String)
        ensures
            r@ == spec_text(method_call_jsonv(self@)),
    {
        let v = self.to_value();
        json_text(&v)
    }
}

impl Notification {
    /// The JSON value this notification is encoded as.
    pub fn to_value(&self) -> (r: JsonValue)
        ensures
            r@ == notification_jsonv(self@),
    {
        let mut fs: Vec<(String, JsonValue)> = Vec::new();
        fs.push((String::from_str("jsonrpc"), JsonValue::Str(String::from_str("2.0"))));
        fs.push((String::from_str("method"), JsonValue::Str(self.method.clone())));
        fs.push((String::from_str("params"), params_to_value(&self.params)));
        proof {
            crate::json::lemma_view_fields(fs@);
            assert(view_fields(fs@) =~= seq![
                ("jsonrpc"@, JsonV::Str("2.0"@)),
                ("method"@, JsonV::Str(self.method@)),
                ("params"@, params_jsonv(self.params@)),
            ]);
        }
        JsonValue::Obj(fs)
    }

    /// The serialized wire form of this notification.
    pub fn to_json(&self) -> (r: String)
        ensures
            r@ == spec_text(notification_jsonv(self@)),
    {
        let v = self.to_value();
        json_text(&v)
    }
}

impl Call {
    /// The JSON value this call is encoded as.
    pub fn to_value(&self) -> (r: JsonValue)
        ensures
            r@ == call_jsonv(self@),
    {
        match self {
            Call::MethodCall(m) => m.to_value(),
            Call::Notification(n) => n.to_value(),
            Call::Invalid { id } => {
                let mut fs: Vec<(String, JsonValue)> = Vec::new();
                fs.push((String::from_str("id"), id_to_value(id)));
                proof {
                    crate::json::lemma_view_fields(fs@);
                    assert(view_fields(fs@) =~= seq![("id"@, id_jsonv(id@))]);
                }
                JsonValue::Obj(fs)
            },
        }
    }

    /// The serialized wire form of this call.
    pub fn to_json(&self) -> (r: String)
        ensures
            r@ == spec_text(call_jsonv(self@)),
    {
        let v = self.to_value();
        json_text(&v)
    }
}

impl Request {
    /// The JSON value this request is encoded as.
    pub fn to_value(&self) -> (r: JsonValue)
        ensures
            r@ == request_jsonv(self@),
    {
        match self {
            Request::Single(c) => c.to_value(),
            Request::Batch(cs) => {
                let mut out: Vec<JsonValue> = Vec::new();
                let n = cs.len();
                let mut k: usize = 0;
                while k < n
                    invariant
                        k <= n,
                        n == cs@.len(),
                        out@.len() == k,
                        forall|i: int| 0 <= i < k ==> out@[i]@ == call_jsonv(cs@[i]@),
                    decreases n - k,
                {
                    let c = cs[k].to_value();
                    out.push(c);
                    k = k + 1;
                }
                proof {
                    crate::json::lemma_view_elems(out@);
                    lemma_view_calls(cs@);
                    assert(view_elems(out@) =~= view_calls(cs@).map_values(
                        |c: CallV| call_jsonv(c)));
                }
                JsonValue::Arr(out)
            },
        }
    }

    /// The serialized wire form of this request: exactly what is written to
    /// the transport.
    pub fn to_json(&self) -> (r: String)
        ensures
            r@ == spec_text(request_jsonv(self@)),
    {
        let v = self.to_value();
        json_text(&v)
    }
}

/// The identifier a JSON value decodes to, if it has an identifier shape:
/// `null`, a non-negative integer, or a string.
pub open spec fn sp_id_of(v: JsonV) -> Option<IdV> {
    match v {
        JsonV::Null => Some(IdV::Null),
        JsonV::UInt(u) => Some(IdV::Num(u)),
        JsonV::Str(s) => Some(IdV::Str(s)),
        _ => None,
    }
}

/// The parameters a `params` field decodes to: absent or `null` mean no
/// parameters; an array or object is taken as is; anything else is rejected.
pub open spec fn sp_params_field(o: Option<JsonV>) -> Option<ParamsV> {
    match o {
        Option::None => Some(ParamsV::Absent),
        Some(JsonV::Null) => Some(ParamsV::Absent),
        Some(JsonV::Arr(vs)) => Some(ParamsV::Array(vs)),
        Some(JsonV::Obj(fs)) => Some(ParamsV::Object(fs)),
        Some(_) => None,
    }
}

/// Whether every field name is one a call may carry (`id` only when
/// `allow_id` holds): unknown fields disqualify a call shape.
pub open spec fn keys_allowed(fs: Seq<(Seq<char>, JsonV)>, allow_id: bool) -> bool {
    forall|i: int|
        0 <= i < fs.len() ==> (fs[i].0 == "jsonrpc"@ || fs[i].0 == "method"@ || fs[i].0
            == "params"@ || (allow_id && fs[i].0 == "id"@))
}

/// Whether no field name repeats: an object that carries a field twice is
/// not a well-formed call shape.
pub open spec fn keys_unique(fs: Seq<(Seq<char>, JsonV)>) -> bool {
    forall|i: int, j: int| 0 <= i < j < fs.len() ==> fs[i].0 != fs[j].0
}

/// The method call an object decodes to: it must carry exactly the version
/// `"2.0"`, a string method, well-formed parameters, an identifier, no other
/// field and no repeated field.
pub open spec fn sp_method_call_of_obj(fs: Seq<(Seq<char>, JsonV)>) -> Option<
    MethodCallV,
> {
    match (
        obj_lookup(fs, "method"@),
        sp_params_field(obj_lookup(fs, "params"@)),
        obj_lookup(fs, "id"@),
    ) {
        (Some(JsonV::Str(mm)), Some(pv), Some(iv)) => match sp_id_of(iv) {
            Some(idv) => if obj_lookup(fs, "jsonrpc"@) == Some(JsonV::Str("2.0"@))
                && keys_allowed(fs, true) && keys_unique(fs) {
                Some(MethodCallV { method: mm, params: pv, id: idv })
            } else {
                None
            },
            Option::None => None,
        },
        _ => None,
    }
}

/// The notification an object decodes to: like a method call, but without an
/// `id` field.
pub open spec fn sp_notification_of_obj(fs: Seq<(Seq<char>, JsonV)>) -> Option<
    NotificationV,
> {
    match (obj_lookup(fs, "method"@), sp_params_field(obj_lookup(fs, "params"@))) {
        (Some(JsonV::Str(mm)), Some(pv)) => if obj_lookup(fs, "jsonrpc"@) == Some(
            JsonV::Str("2.0"@),
        ) && obj_lookup(fs, "id"@) is None && keys_allowed(fs, false) && keys_unique(fs) {
            Some(NotificationV { method: mm, params: pv })
        } else {
            None
        },
        _ => None,
    }
}

/// The identifier an invalid call carries: its `id` field when that field has
/// an identifier shape, `null` otherwise.
pub open spec fn sp_invalid_id_of_obj(fs: Seq<(Seq<char>, JsonV)>) -> IdV {
    match obj_lookup(fs, "id"@) {
        Some(iv) => match sp_id_of(iv) {
            Some(idv) => idv,
            Option::None => IdV::Null,
        },
        Option::None => IdV::Null,
    }
}

/// The call a JSON value decodes to: only objects decode; an object that is
/// neither a method call nor a notification is an invalid call carrying its
/// id if present.
pub open spec fn sp_call_of(v: JsonV) -> Option<CallV> {
    match v {
        JsonV::Obj(fs) => match sp_method_call_of_obj(fs) {
            Some(m) => Some(CallV::MethodCall(m)),
            Option::None => match sp_notification_of_obj(fs) {
                Some(n) => Some(CallV::Notification(n)),
                Option::None => Some(CallV::Invalid { id: sp_invalid_id_of_obj(fs) }),
            },
        },
        _ => None,
    }
}

/// The calls a batch decodes to, provided every item decodes.
pub open spec fn sp_calls_of(items: Seq<JsonV>) -> Option<Seq<CallV>>
    decreases items.len(),
{
    if items.len() == 0 {
        Some(Seq::empty())
    } else {
        match (sp_call_of(items[0]), sp_calls_of(items.drop_first())) {
            (Some(c), Some(rest)) => Some(seq![c] + rest),
            _ => None,
        }
    }
}

/// The request a JSON value decodes to: an object is a single call, an array
/// a batch; anything else is rejected.
pub open spec fn sp_request_of(v: JsonV) -> Option<RequestV> {
    match v {
        JsonV::Obj(fs) => match sp_call_of(v) {
            Some(c) => Some(RequestV::Single(c)),
            Option::None => None,
        },
        JsonV::Arr(items) => match sp_calls_of(items) {
            Some(cs) => Some(RequestV::Batch(cs)),
            Option::None => None,
        },
        _ => None,
    }
}

/// The call a serialized document decodes to.
pub open spec fn sp_parse_call(s: Seq<char>) -> Option<CallV> {
    match spec_parse(s) {
        Some(v) => sp_call_of(v),
        Option::None => None,
    }
}

/// The notification a serialized document decodes to.
pub open spec fn sp_parse_notification(s: Seq<char>) -> Option<NotificationV> {
    match spec_parse(s) {
        Some(JsonV::Obj(fs)) => sp_notification_of_obj(fs),
        _ => None,
    }
}

/// The request a serialized document decodes to.
pub open spec fn sp_parse_request(s: Seq<char>) -> Option<RequestV> {
    match spec_parse(s) {
        Some(v) => sp_request_of(v),
        Option::None => None,
    }
}

/// Decodes an identifier value.
pub(crate) fn id_of_value(v: &JsonValue) -> (r: Option<Id>)
    ensures
        match r {
            Some(i) => sp_id_of(v@) == Some(i@),
            None => sp_id_of(v@) is None,
        },
{
    match v {
        JsonValue::Null => Some(Id::Null),
        JsonValue::UInt(u) => Some(Id::Num(*u)),
        JsonValue::Str(s) => Some(Id::Str(s.clone())),
        _ => None,
    }
}

/// Decodes the `params` field of an object.
fn params_of_obj(fs: &Vec<(String, JsonValue)>) -> (r: Option<Params>)
    ensures
        match r {
            Some(p) => sp_params_field(obj_lookup(view_fields(fs@), "params"@)) == Some(
                p@,
            ),
            None => sp_params_field(obj_lookup(view_fields(fs@), "params"@)) is None,
        },
{
    match obj_get(fs, "params") {
        None => Some(Params::Absent),
        Some(pv) => match pv {
            JsonValue::Null => Some(Params::Absent),
            JsonValue::Arr(vs) => Some(Params::Array(crate::json::clone_values(vs))),
            JsonValue::Obj(ofs) => Some(Params::Object(crate::json::clone_fields(ofs))),
            _ => None,
        },
    }
}

/// Whether every field name of `fs` is one a call may carry.
fn keys_allowed_exec(fs: &Vec<(String, JsonValue)>, allow_id: bool) -> (r: bool)
    ensures
        r == keys_allowed(view_fields(fs@), allow_id),
{
    proof {
        crate::json::lemma_view_fields(fs@);
    }
    let ghost m = view_fields(fs@);
    let n = fs.len();
    let mut k: usize = 0;
    while k < n
        invariant
            k <= n,
            n == fs@.len(),
            m == view_fields(fs@),
            m.len() == fs@.len(),
            forall|i: int| 0 <= i < fs@.len() ==> m[i] == (fs@[i].0@, fs@[i].1@),
            forall|i: int|
                0 <= i < k ==> (m[i].0 == "jsonrpc"@ || m[i].0 == "method"@ || m[i].0
                    == "params"@ || (allow_id && m[i].0 == "id"@)),
        decreases n - k,
    {
        let key = fs[k].0.as_str();
        let ok = str_eq(key, "jsonrpc") || str_eq(key, "method") || str_eq(key, "params")
            || (allow_id && str_eq(key, "id"));
        if !ok {
            proof {
                assert(!(m[k as int].0 == "jsonrpc"@ || m[k as int].0 == "method"@
                    || m[k as int].0 == "params"@ || (allow_id && m[k as int].0
                    == "id"@)));
                assert(!keys_allowed(m, allow_id));
            }
            return false;
        }
        k = k + 1;
    }
    true
}

/// Whether no field name of `fs` repeats.
fn keys_unique_exec(fs: &Vec<(String, JsonValue)>) -> (r: bool)
    ensures
        r == keys_unique(view_fields(fs@)),
{
    proof {
        crate::json::lemma_view_fields(fs@);
    }
    let ghost m = view_fields(fs@);
    let n = fs.len();
    let mut k: usize = 0;
    while k < n
        invariant
            k <= n,
            n == fs@.len(),
            m == view_fields(fs@),
            m.len() == fs@.len(),
            forall|i: int| 0 <= i < fs@.len() ==> m[i] == (fs@[i].0@, fs@[i].1@),
            forall|i: int, j: int| 0 <= i < j < fs@.len() && j < k ==> m[i].0 != m[j].0,
        decreases n - k,
    {
        let mut e: usize = 0;
        while e < k
            invariant
                e <= k,
                k < n,
                n == fs@.len(),
                m == view_fields(fs@),
                m.len() == fs@.len(),
                forall|i: int| 0 <= i < fs@.len() ==> m[i] == (fs@[i].0@, fs@[i].1@),
                forall|i: int| 0 <= i < e ==> m[i].0 != m[k as int].0,
            decreases k - e,
        {
            if str_eq(fs[e].0.as_str(), fs[k].0.as_str()) {
                proof {
                    assert(m[e as int].0 == m[k as int].0);
                    assert(!keys_unique(m));
                }
                return false;
            }
            e = e + 1;
        }
        k = k + 1;
    }
    true
}

/// Whether the object's `jsonrpc` field is exactly the string `"2.0"`.
pub(crate) fn version_ok(fs: &Vec<(String, JsonValue)>) -> (r: bool)
    ensures
        r == (obj_lookup(view_fields(fs@), "jsonrpc"@) == Some(JsonV::Str("2.0"@))),
{
    match obj_get(fs, "jsonrpc") {
        Some(jv) => match jv {
            JsonValue::Str(s) => str_eq(s.as_str(), "2.0"),
            _ => false,
        },
        None => false,
    }
}

/// Decodes a JSON value as a single call. Only objects decode; an object
/// that is neither a method call nor a notification is an invalid call.
pub fn call_of_value(v: &JsonValue) -> (r: Option<Call>)
    ensures
        match r {
            Some(c) => sp_call_of(v@) == Some(c@),
            None => sp_call_of(v@) is None,
        },
{
    let fs = match v {
        JsonValue::Obj(fs) => fs,
        _ => {
            return None;
        },
    };
    let jr_ok = version_ok(fs);
    let method: Option<String> = match obj_get(fs, "method") {
        Some(mv) => match mv {
            JsonValue::Str(s) => Some(s.clone()),
            _ => None,
        },
        None => None,
    };
    let params: Option<Params> = params_of_obj(fs);
    let mut has_id = false;
    let id_val: Option<Id> = match obj_get(fs, "id") {
        Some(iv) => {
            has_id = true;
            id_of_value(iv)
        },
        None => None,
    };
    let uniq = keys_unique_exec(fs);
    if jr_ok && method.is_some() && params.is_some() && has_id && id_val.is_some()
        && keys_allowed_exec(fs, true) && uniq {
        Some(
            Call::MethodCall(
                MethodCall {
                    jsonrpc: Version::V2,
                    method: method.unwrap(),
                    params: params.unwrap(),
                    id: id_val.unwrap(),
                },
            ),
        )
    } else if jr_ok && method.is_some() && params.is_some() && !has_id
        && keys_allowed_exec(fs, false) && uniq {
        Some(
            Call::Notification(
                Notification {
                    jsonrpc: Version::V2,
                    method: method.unwrap(),
                    params: params.unwrap(),
                },
            ),
        )
    } else {
        let inv_id = match id_val {
            Some(i) => i,
            None => Id::Null,
        };
        Some(Call::Invalid { id: inv_id })
    }
}

/// Decodes a JSON value as a notification alone: an object with the version,
/// a string method, well-formed parameters, no `id`, and no other field.
pub fn notification_of_value(v: &JsonValue) -> (r: Option<Notification>)
    ensures
        match r {
            Some(n) => (match v@ {
                JsonV::Obj(fs) => sp_notification_of_obj(fs) == Some(n@),
                _ => false,
            }),
            None => (match v@ {
                JsonV::Obj(fs) => sp_notification_of_obj(fs) is None,
                _ => true,
            }),
        },
{
    let fs = match v {
        JsonValue::Obj(fs) => fs,
        _ => {
            return None;
        },
    };
    let jr_ok = version_ok(fs);
    let method: Option<String> = match obj_get(fs, "method") {
        Some(mv) => match mv {
            JsonValue::Str(s) => Some(s.clone()),
            _ => None,
        },
        None => None,
    };
    let params: Option<Params> = params_of_obj(fs);
    let no_id = match obj_get(fs, "id") {
        Some(_) => false,
        None => true,
    };
    if jr_ok && method.is_some() && params.is_some() && no_id && keys_allowed_exec(
        fs,
        false,
    ) && keys_unique_exec(fs) {
        Some(
            Notification {
                jsonrpc: Version::V2,
                method: method.unwrap(),
                params: params.unwrap(),
            },
        )
    } else {
        None
    }
}

/// `view_calls` distributes over appending one call.
proof fn lemma_view_calls_push(cs: Seq<Call>, c: Call)
    ensures
        view_calls(cs.push(c)) == view_calls(cs) + seq![c@],
    decreases cs.len(),
{
    if cs.len() == 0 {
        assert(cs.push(c).drop_first() =~= Seq::<Call>::empty());
        assert(view_calls(cs.push(c).drop_first()) =~= Seq::<CallV>::empty());
        assert(cs.push(c)[0] == c);
        assert(view_calls(cs) =~= Seq::<CallV>::empty());
        assert(view_calls(cs.push(c)) =~= view_calls(cs) + seq![c@]);
    } else {
        assert(cs.push(c).drop_first() =~= cs.drop_first().push(c));
        assert(cs.push(c)[0] == cs[0]);
        lemma_view_calls_push(cs.drop_first(), c);
        assert(view_calls(cs.push(c)) =~= view_calls(cs) + seq![c@]);
    }
}

/// Decodes a JSON value as a request: an object is a single call, an array a
/// batch in which every item must decode.
pub fn request_of_value(v: &JsonValue) -> (r: Option<Request>)
    ensures
        match r {
            Some(q) => sp_request_of(v@) == Some(q@),
            None => sp_request_of(v@) is None,
        },
{
    match v {
        JsonValue::Obj(_) => match call_of_value(v) {
            Some(c) => Some(Request::Single(c)),
            None => None,
        },
        JsonValue::Arr(items) => {
            proof {
                crate::json::lemma_view_elems(items@);
            }
            let ghost m = view_elems(items@);
            let mut out: Vec<Call> = Vec::new();
            let n = items.len();
            let mut k: usize = 0;
            proof {
                assert(m.skip(0) =~= m);
                assert(view_calls(out@) + Seq::<CallV>::empty() =~= view_calls(out@));
            }
            while k < n
                invariant
                    k <= n,
                    n == items@.len(),
                    m == view_elems(items@),
                    m.len() == items@.len(),
                    v@ == JsonV::Arr(m),
                    forall|i: int| 0 <= i < items@.len() ==> m[i] == items@[i]@,
                    out@.len() == k,
                    sp_calls_of(m) == (match sp_calls_of(m.skip(k as int)) {
                        Some(rest) => Some(view_calls(out@) + rest),
                        Option::None => None::<Seq<CallV>>,
                    }),
                decreases n - k,
            {
                match call_of_value(&items[k]) {
                    None => {
                        proof {
                            assert(m.skip(k as int)[0] == m[k as int]);
                            assert(sp_calls_of(m.skip(k as int)) is None);
                            assert(sp_calls_of(m) is None);
                            assert(v@ == JsonV::Arr(m));
                            assert(sp_request_of(v@) is None);
                        }
                        return None;
                    },
                    Some(c) => {
                        proof {
                            assert(m.skip(k as int)[0] == m[k as int]);
                            assert(m.skip(k as int).drop_first() =~= m.skip(k + 1));
                            lemma_view_calls_push(out@, c);
                        }
                        let ghost prev = out@;
                        out.push(c);
                        proof {
                            if sp_calls_of(m.skip(k + 1)) is Some {
                                let rest = sp_calls_of(m.skip(k + 1))->0;
                                assert(view_calls(prev) + (seq![c@] + rest) =~= view_calls(
                                    out@) + rest);
                            }
                        }
                        k = k + 1;
                    },
                }
            }
            proof {
                assert(m.skip(n as int).len() == 0);
                assert(view_calls(out@) + Seq::<CallV>::empty() =~= view_calls(out@));
            }
            Some(Request::Batch(out))
        },
        _ => None,
    }
}

impl Call {
    /// Decodes a serialized document as a single call.
    pub fn from_json(s: &str) -> (r: Option<Call>)
        ensures
            match r {
                Some(c) => sp_parse_call(s@) == Some(c@),
                None => sp_parse_call(s@) is None,
            },
    {
        match parse_json(s) {
            Some(v) => call_of_value(&v),
            None => None,
        }
    }
}

impl Notification {
    /// Decodes a serialized document as a notification.
    pub fn from_json(s: &str) -> (r: Option<Notification>)
        ensures
            match r {
                Some(n) => sp_parse_notification(s@) == Some(n@),
                None => sp_parse_notification(s@) is None,
            },
    {
        match parse_json(s) {
            Some(v) => notification_of_value(&v),
            None => None,
        }
    }
}

impl Request {
    /// Decodes a serialized document as a request.
    pub fn from_json(s: &str) -> (r: Option<Request>)
        ensures
            match r {
                Some(q) => sp_parse_request(s@) == Some(q@),
                None => sp_parse_request(s@) is None,
            },
    {
        match parse_json(s) {
            Some(v) => request_of_value(&v),
            None => None,
        }
    }
}

} // verus!
