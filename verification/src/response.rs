//! Inbound frames: server replies, reply batches, and subscription
//! notifications, decoded from the transport's text payloads.

use vstd::prelude::*;
use crate::error::{ServerError, ServerErrorV};
use crate::json::{
    clone_value, obj_get, obj_lookup, parse_json, spec_parse, view_elems, view_fields, JsonV,
    JsonValue,
};
use crate::request::{sp_id_of, Id, IdV};

verus! {

broadcast use vstd::std_specs::vec::group_vec_axioms, vstd::seq::group_seq_axioms;

/// Mathematical model of one reply's outcome.
pub enum ReplyOutcomeV {
    /// The server returned a result.
    Success(JsonV),
    /// The server returned an error object.
    Failure(ServerErrorV),
}

/// The outcome of one reply: the server's result, or its error object.
#[derive(Debug)]
pub enum ReplyOutcome {
    /// The server returned a result.
    Success(JsonValue),
    /// The server returned an error object.
    Failure(ServerError),
}

impl View for ReplyOutcome {
    type V = ReplyOutcomeV;

    open spec fn view(&self) -> ReplyOutcomeV {
        match self {
            ReplyOutcome::Success(v) => ReplyOutcomeV::Success(v@),
            ReplyOutcome::Failure(e) => ReplyOutcomeV::Failure(e@),
        }
    }
}

/// Mathematical model of a single response frame.
pub struct ResponseV {
    /// The identifier the reply is for.
    pub id: IdV,
    /// The outcome.
    pub outcome: ReplyOutcomeV,
}

/// A single response frame: `{"jsonrpc":"2.0","result":..,"id":..}` or
/// `{"jsonrpc":"2.0","error":{..},"id":..}`.
#[derive(Debug)]
pub struct Response {
    /// The identifier the reply is for.
    pub id: Id,
    /// The outcome.
    pub outcome: ReplyOutcome,
}

impl View for Response {
    type V = ResponseV;

    open spec fn view(&self) -> ResponseV {
        ResponseV { id: self.id@, outcome: self.outcome@ }
    }
}

/// Mathematical model of a subscription notification.
pub struct SubNotifV {
    /// The notification's method name.
    pub method: Seq<char>,
    /// The subscription the payload belongs to.
    pub subscription: IdV,
    /// The payload.
    pub result: JsonV,
}

/// A server-pushed subscription notification:
/// `{"jsonrpc":"2.0","method":..,"params":{"subscription":..,"result":..}}`.
#[derive(Debug)]
pub struct SubNotif {
    /// The notification's method name.
    pub method: String,
    /// The subscription the payload belongs to.
    pub subscription: Id,
    /// The payload.
    pub result: JsonValue,
}

impl View for SubNotif {
    type V = SubNotifV;

    open spec fn view(&self) -> SubNotifV {
        SubNotifV {
            method: self.method@,
            subscription: self.subscription@,
            result: self.result@,
        }
    }
}

/// Mathematical model of one decoded inbound frame.
pub enum IncomingV {
    /// One reply.
    Reply(ResponseV),
    /// A batch of replies.
    Batch(Seq<ResponseV>),
    /// A subscription notification.
    Notif(SubNotifV),
}

/// One decoded inbound frame.
#[derive(Debug)]
pub enum Incoming {
    /// One reply.
    Reply(Response),
    /// A batch of replies.
    Batch(Vec<Response>),
    /// A subscription notification.
    Notif(SubNotif),
}

/// The models of a sequence of responses, in order.
pub open spec fn view_responses(rs: Seq<Response>) -> Seq<ResponseV>
    decreases rs.len(),
{
    if rs.len() == 0 {
        Seq::empty()
    } else {
        seq![rs[0]@] + view_responses(rs.drop_first())
    }
}

/// Facts about `view_responses`: it keeps length and maps each response
/// pointwise.
pub proof fn lemma_view_responses(rs: Seq<Response>)
    ensures
        view_responses(rs).len() == rs.len(),
        forall|i: int| 0 <= i < rs.len() ==> view_responses(rs)[i] == rs[i]@,
    decreases rs.len(),
{
    if rs.len() > 0 {
        lemma_view_responses(rs.drop_first());
    }
}

/// `view_responses` distributes over appending one response.
proof fn lemma_view_responses_push(rs: Seq<Response>, r: Response)
    ensures
        view_responses(rs.push(r)) == view_responses(rs) + seq![r@],
    decreases rs.len(),
{
    if rs.len() == 0 {
        assert(rs.push(r).drop_first() =~= Seq::<Response>::empty());
        assert(view_responses(rs.push(r).drop_first()) =~= Seq::<ResponseV>::empty());
        assert(rs.push(r)[0] == r);
        assert(view_responses(rs) =~= Seq::<ResponseV>::empty());
        assert(view_responses(rs.push(r)) =~= view_responses(rs) + seq![r@]);
    } else {
        assert(rs.push(r).drop_first() =~= rs.drop_first().push(r));
        assert(rs.push(r)[0] == rs[0]);
        lemma_view_responses_push(rs.drop_first(), r);
        assert(view_responses(rs.push(r)) =~= view_responses(rs) + seq![r@]);
    }
}

impl View for Incoming {
    type V = IncomingV;

    open spec fn view(&self) -> IncomingV {
        match self {
            Incoming::Reply(r) => IncomingV::Reply(r@),
            Incoming::Batch(rs) => IncomingV::Batch(view_responses(rs@)),
            Incoming::Notif(n) => IncomingV::Notif(n@),
        }
    }
}

/// The signed 64-bit integer a JSON value decodes to, if it is an integer in
/// range.
pub open spec fn sp_i64_of(v: JsonV) -> Option<i64> {
    match v {
        JsonV::UInt(u) => if u <= i64::MAX as u64 {
            Some(u as i64)
        } else {
            None
        },
        JsonV::NegInt(m) => if m <= 0x8000000000000000u64 {
            Some((-(m as int)) as i64)
        } else {
            None
        },
        _ => None,
    }
}

/// The server error an `error` member decodes to: an object with an integer
/// `code`, a string `message`, and an optional `data` payload.
pub open spec fn sp_server_error_of(v: JsonV) -> Option<ServerErrorV> {
    match v {
        JsonV::Obj(fs) => match (obj_lookup(fs, "code"@), obj_lookup(fs, "message"@)) {
            (Some(cv), Some(JsonV::Str(msg))) => match sp_i64_of(cv) {
                Some(code) => Some(
                    ServerErrorV { code: code, message: msg, data: obj_lookup(fs, "data"@) },
                ),
                Option::None => None,
            },
            _ => None,
        },
        _ => None,
    }
}

/// The response a JSON value decodes to: an object carrying the version, a
/// well-formed identifier, and exactly one of `result` or `error`.
pub open spec fn sp_response_of(v: JsonV) -> Option<ResponseV> {
    match v {
        JsonV::Obj(fs) => {
            if obj_lookup(fs, "jsonrpc"@) != Some(JsonV::Str("2.0"@)) {
                None
            } else {
                match obj_lookup(fs, "id"@) {
                    Option::None => None,
                    Some(iv) => match sp_id_of(iv) {
                        Option::None => None,
                        Some(idv) => match (
                            obj_lookup(fs, "result"@),
                            obj_lookup(fs, "error"@),
                        ) {
                            (Some(res), Option::None) => Some(
                                ResponseV { id: idv, outcome: ReplyOutcomeV::Success(res) },
                            ),
                            (Option::None, Some(ev)) => match sp_server_error_of(ev) {
                                Some(se) => Some(
                                    ResponseV {
                                        id: idv,
                                        outcome: ReplyOutcomeV::Failure(se),
                                    },
                                ),
                                Option::None => None,
                            },
                            _ => None,
                        },
                    },
                }
            }
        },
        _ => None,
    }
}

/// The subscription identifier a JSON value decodes to: a non-negative
/// integer or a string; anything else is not a plausible identifier.
pub open spec fn sp_sub_id_of(v: JsonV) -> Option<IdV> {
    match v {
        JsonV::UInt(u) => Some(IdV::Num(u)),
        JsonV::Str(s) => Some(IdV::Str(s)),
        _ => None,
    }
}

/// The subscription notification a JSON value decodes to: an object carrying
/// the version, a string method, and object params holding a `subscription`
/// identifier and a `result` payload.
pub open spec fn sp_subnotif_of(v: JsonV) -> Option<SubNotifV> {
    match v {
        JsonV::Obj(fs) => {
            if obj_lookup(fs, "jsonrpc"@) != Some(JsonV::Str("2.0"@)) {
                None
            } else {
                match (obj_lookup(fs, "method"@), obj_lookup(fs, "params"@)) {
                    (Some(JsonV::Str(mm)), Some(JsonV::Obj(pfs))) => match (
                        obj_lookup(pfs, "subscription"@),
                        obj_lookup(pfs, "result"@),
                    ) {
                        (Some(sv), Some(res)) => match sp_sub_id_of(sv) {
                            Some(sid) => Some(
                                SubNotifV { method: mm, subscription: sid, result: res },
                            ),
                            Option::None => None,
                        },
                        _ => None,
                    },
                    _ => None,
                }
            }
        },
        _ => None,
    }
}

/// The responses the items of a reply batch decode to, in order; items that
/// are not responses are dropped, so one malformed child does not poison its
/// siblings.
pub open spec fn sp_responses_of(items: Seq<JsonV>) -> Seq<ResponseV>
    decreases items.len(),
{
    if items.len() == 0 {
        Seq::empty()
    } else {
        match sp_response_of(items[0]) {
            Some(r) => seq![r] + sp_responses_of(items.drop_first()),
            Option::None => sp_responses_of(items.drop_first()),
        }
    }
}

/// The inbound frame a JSON value decodes to: a reply, a subscription
/// notification, or a batch of replies. `None` means the value has no
/// JSON-RPC shape the client expects; such frames are dropped.
pub open spec fn sp_incoming_of(v: JsonV) -> Option<IncomingV> {
    match v {
        JsonV::Obj(_) => match sp_response_of(v) {
            Some(r) => Some(IncomingV::Reply(r)),
            Option::None => match sp_subnotif_of(v) {
                Some(n) => Some(IncomingV::Notif(n)),
                Option::None => None,
            },
        },
        JsonV::Arr(items) => Some(IncomingV::Batch(sp_responses_of(items))),
        _ => None,
    }
}

/// Mathematical model of the decoding of one transport payload.
pub enum FrameDecodeV {
    /// The payload is not well-formed JSON.
    Malformed,
    /// The payload is JSON but has no shape the client expects; it is dropped.
    Unexpected,
    /// A decoded frame.
    Frame(IncomingV),
}

/// The decoding of one transport payload.
#[derive(Debug)]
pub enum FrameDecode {
    /// The payload is not well-formed JSON.
    Malformed,
    /// The payload is JSON but has no shape the client expects; it is dropped.
    Unexpected,
    /// A decoded frame.
    Frame(Incoming),
}

impl View for FrameDecode {
    type V = FrameDecodeV;

    open spec fn view(&self) -> FrameDecodeV {
        match self {
            FrameDecode::Malformed => FrameDecodeV::Malformed,
            FrameDecode::Unexpected => FrameDecodeV::Unexpected,
            FrameDecode::Frame(f) => FrameDecodeV::Frame(f@),
        }
    }
}

/// What one transport payload decodes to.
pub open spec fn sp_decode_frame(s: Seq<char>) -> FrameDecodeV {
    match spec_parse(s) {
        Option::None => FrameDecodeV::Malformed,
        Some(v) => match sp_incoming_of(v) {
            Some(f) => FrameDecodeV::Frame(f),
            Option::None => FrameDecodeV::Unexpected,
        },
    }
}

/// Decodes a signed 64-bit integer.
fn i64_of_value(v: &JsonValue) -> (r: Option<i64>)
    ensures
        match r {
            Some(c) => sp_i64_of(v@) == Some(c),
            None => sp_i64_of(v@) is None,
        },
{
    match v {
        JsonValue::UInt(u) => if *u <= 0x7fffffffffffffffu64 {
            Some(*u as i64)
        } else {
            None
        },
        JsonValue::NegInt(m) => if *m <= 0x7fffffffffffffffu64 {
            Some(-(*m as i64))
        } else if *m == 0x8000000000000000u64 {
            Some(i64::MIN)
        } else {
            None
        },
        _ => None,
    }
}

/// Decodes an `error` member as a server error.
fn server_error_of_value(v: &JsonValue) -> (r: Option<ServerError>)
    ensures
        match r {
            Some(se) => sp_server_error_of(v@) == Some(se@),
            None => sp_server_error_of(v@) is None,
        },
{
    let fs = match v {
        JsonValue::Obj(fs) => fs,
        _ => {
            return None;
        },
    };
    let code = match obj_get(fs, "code") {
        Some(cv) => match i64_of_value(cv) {
            Some(c) => c,
            None => {
                return None;
            },
        },
        None => {
            return None;
        },
    };
    let message = match obj_get(fs, "message") {
        Some(mv) => match mv {
            JsonValue::Str(s) => s.clone(),
            _ => {
                return None;
            },
        },
        None => {
            return None;
        },
    };
    let data = match obj_get(fs, "data") {
        Some(dv) => Some(clone_value(dv)),
        None => None,
    };
    Some(ServerError { code, message, data })
}

/// Decodes a subscription identifier.
pub(crate) fn sub_id_of_value(v: &JsonValue) -> (r: Option<Id>)
    ensures
        match r {
            Some(i) => sp_sub_id_of(v@) == Some(i@),
            None => sp_sub_id_of(v@) is None,
        },
{
    match v {
        JsonValue::UInt(u) => Some(Id::Num(*u)),
        JsonValue::Str(s) => Some(Id::Str(s.clone())),
        _ => None,
    }
}

/// Decodes a JSON value as a single response.
pub fn response_of_value(v: &JsonValue) -> (r: Option<Response>)
    ensures
        match r {
            Some(resp) => sp_response_of(v@) == Some(resp@),
            None => sp_response_of(v@) is None,
        },
{
    let fs = match v {
        JsonValue::Obj(fs) => fs,
        _ => {
            return None;
        },
    };
    if !crate::request::version_ok(fs) {
        return None;
    }
    let id = match obj_get(fs, "id") {
        Some(iv) => match crate::request::id_of_value(iv) {
            Some(i) => i,
            None => {
                return None;
            },
        },
        None => {
            return None;
        },
    };
    let result = obj_get(fs, "result");
    match result {
        Some(res) => {
            match obj_get(fs, "error") {
                Some(_) => None,
                None => Some(
                    Response { id, outcome: ReplyOutcome::Success(clone_value(res)) },
                ),
            }
        },
        None => {
            match obj_get(fs, "error") {
                Some(ev) => match server_error_of_value(ev) {
                    Some(se) => Some(
                        Response { id, outcome: ReplyOutcome::Failure(se) },
                    ),
                    None => None,
                },
                None => None,
            }
        },
    }
}

/// Decodes a JSON value as a subscription notification.
pub fn subnotif_of_value(v: &JsonValue) -> (r: Option<SubNotif>)
    ensures
        match r {
            Some(n) => sp_subnotif_of(v@) == Some(n@),
            None => sp_subnotif_of(v@) is None,
        },
{
    let fs = match v {
        JsonValue::Obj(fs) => fs,
        _ => {
            return None;
        },
    };
    if !crate::request::version_ok(fs) {
        return None;
    }
    let method = match obj_get(fs, "method") {
        Some(mv) => match mv {
            JsonValue::Str(s) => s.clone(),
            _ => {
                return None;
            },
        },
        None => {
            return None;
        },
    };
    let pfs = match obj_get(fs, "params") {
        Some(pv) => match pv {
            JsonValue::Obj(pfs) => pfs,
            _ => {
                return None;
            },
        },
        None => {
            return None;
        },
    };
    let sid = match obj_get(pfs, "subscription") {
        Some(sv) => match sub_id_of_value(sv) {
            Some(i) => i,
            None => {
                return None;
            },
        },
        None => {
            return None;
        },
    };
    let payload = match obj_get(pfs, "result") {
        Some(res) => clone_value(res),
        None => {
            return None;
        },
    };
    Some(SubNotif { method, subscription: sid, result: payload })
}

/// Decodes a JSON value as an inbound frame.
pub fn incoming_of_value(v: &JsonValue) -> (r: Option<Incoming>)
    ensures
        match r {
            Some(f) => sp_incoming_of(v@) == Some(f@),
            None => sp_incoming_of(v@) is None,
        },
{
    match v {
        JsonValue::Obj(_) => {
            match response_of_value(v) {
                Some(resp) => Some(Incoming::Reply(resp)),
                None => match subnotif_of_value(v) {
                    Some(n) => Some(Incoming::Notif(n)),
                    None => None,
                },
            }
        },
        JsonValue::Arr(items) => {
            proof {
                crate::json::lemma_view_elems(items@);
            }
            let ghost m = view_elems(items@);
            let mut out: Vec<Response> = Vec::new();
            let n = items.len();
            let mut k: usize = 0;
            proof {
                assert(m.skip(0) =~= m);
                assert(view_responses(out@) + sp_responses_of(m) =~= sp_responses_of(m));
            }
            while k < n
                invariant
                    k <= n,
                    n == items@.len(),
                    m == view_elems(items@),
                    m.len() == items@.len(),
                    v@ == JsonV::Arr(m),
                    forall|i: int| 0 <= i < items@.len() ==> m[i] == items@[i]@,
                    sp_responses_of(m) == view_responses(out@) + sp_responses_of(
                        m.skip(k as int),
                    ),
                decreases n - k,
            {
                proof {
                    assert(m.skip(k as int)[0] == m[k as int]);
                    assert(m.skip(k as int).drop_first() =~= m.skip(k + 1));
                }
                match response_of_value(&items[k]) {
                    Some(resp) => {
                        proof {
                            lemma_view_responses_push(out@, resp);
                        }
                        let ghost prev = out@;
                        out.push(resp);
                        proof {
                            assert(view_responses(prev) + (seq![resp@] + sp_responses_of(
                                m.skip(k + 1))) =~= view_responses(out@) + sp_responses_of(
                                m.skip(k + 1)));
                        }
                    },
                    None => {
                    },
                }
                k = k + 1;
            }
            proof {
                assert(m.skip(n as int).len() == 0);
                assert(sp_responses_of(m.skip(n as int)) =~= Seq::<ResponseV>::empty());
                assert(view_responses(out@) + Seq::<ResponseV>::empty() =~= view_responses(
                    out@));
            }
            Some(Incoming::Batch(out))
        },
        _ => None,
    }
}

/// Decodes one transport payload.
pub fn decode_frame(s: &str) -> (r: FrameDecode)
    ensures
        r@ == sp_decode_frame(s@),
{
    match parse_json(s) {
        None => FrameDecode::Malformed,
        Some(v) => match incoming_of_value(&v) {
            Some(f) => FrameDecode::Frame(f),
            None => FrameDecode::Unexpected,
        },
    }
}

} // verus!
