//! The client end of a JSON-RPC 2.0 connection: it writes framed requests
//! and notifications, matches replies to the requests that wait for them,
//! and tracks whether the connection is still usable.
use vstd::prelude::*;
use crate::framing::{all_digits, decimal_digits, decimal_value, encode_frame, frame_of, parse_decimal, push_decimal, Decoded, FramingError};
use crate::table::CorrelationTable;

verus! {

/// A JSON value as the transport reads it. Strings and object keys are kept
/// as their UTF-8 bytes, and a number as the text it was written with.
#[derive(Debug, PartialEq)]
pub enum JsonValue {
    Null,
    Bool(bool),
    Number(Vec<u8>),
    Str(Vec<u8>),
    Array(Vec<JsonValue>),
    Object(Vec<(Vec<u8>, JsonValue)>),
}

/// The life of a connection: `Starting` until its reader runs, `Running`
/// while it serves, `Closing` while waiting requests are told that it went
/// away, and `Closed` for good.
#[derive(Debug, Clone, Copy, PartialEq, Eq, Structural)]
pub enum TransportState {
    Starting,
    Running,
    Closing,
    Closed,
}

/// Why a request or notification was not sent.
#[derive(Debug, Clone, Copy, PartialEq, Eq, Structural)]
pub enum ClientError {
    /// The connection has gone away.
    TransportClosed,
    /// A payload could not be written as JSON.
    Serialization,
}

/// Why an incoming message was dropped. None of these ends the connection.
#[derive(Debug, Clone, Copy, PartialEq, Eq, Structural)]
pub enum DispatchError {
    /// Not an object, or an object that is no request, notification or reply.
    MalformedEnvelope,
    /// A reply whose id is neither a number nor a string of decimal digits.
    InvalidId,
    /// A reply to an id that no request waits on.
    UnknownId(u64),
}

/// Where an incoming message goes.
#[derive(Debug, PartialEq)]
pub enum Dispatched<T> {
    /// A notification from the server, for the notification handler.
    Notification(JsonValue),
    /// A request from the server, which this client does not serve.
    UnexpectedRequest(JsonValue),
    /// The reply to request `id`: its handle, and the `result` or the `error` object.
    Reply { id: u64, handle: T, outcome: Result<JsonValue, JsonValue> },
}

/// What the reader of the server's output does next.
#[derive(Debug, PartialEq)]
pub enum ReaderStep<T> {
    /// Hand this frame body on, and drop `consumed` bytes from the buffer.
    Deliver { body: Vec<u8>, consumed: usize },
    /// Wait for more bytes.
    ReadMore,
    /// The connection is over: tell each of these requests that it went away.
    /// `error` says why, where the stream did not end cleanly.
    Stop { disconnected: Vec<(u64, T)>, error: Option<FramingError> },
}

/// The text that a method name takes in a JSON document.
pub uninterp spec fn json_string_of(s: Seq<char>) -> Seq<u8>;

/// Relies on `serde_json::to_vec` on a `str`: it writes the string as a JSON
/// string literal, a function of the string alone. Writing a `str` into a
/// `Vec` does not fail.
#[verifier::external_body]
fn quote_json(s: &str) -> (r: Option<Vec<u8>>)
    ensures
        r is Some,
        r matches Some(v) ==> v@ == json_string_of(s@),
{
    serde_json::to_vec(s).ok()
}

/// `{"jsonrpc":"2.0","id":`
pub open spec fn request_head() -> Seq<u8> {
    seq![123u8, 34, 106, 115, 111, 110, 114, 112, 99, 34, 58, 34, 50, 46, 48, 34, 44, 34, 105, 100, 34, 58]
}

/// `,"method":`
pub open spec fn method_key() -> Seq<u8> {
    seq![44u8, 34, 109, 101, 116, 104, 111, 100, 34, 58]
}

/// `,"params":`
pub open spec fn params_key() -> Seq<u8> {
    seq![44u8, 34, 112, 97, 114, 97, 109, 115, 34, 58]
}

/// `{"jsonrpc":"2.0","method":`
pub open spec fn notification_head() -> Seq<u8> {
    seq![123u8, 34, 106, 115, 111, 110, 114, 112, 99, 34, 58, 34, 50, 46, 48, 34, 44, 34, 109, 101, 116, 104, 111, 100, 34, 58]
}

/// The JSON text of request `id` to `method` (already quoted) with `params`.
pub open spec fn request_body(id: u64, method: Seq<u8>, params: Seq<u8>) -> Seq<u8> {
    request_head() + decimal_digits(id as nat) + method_key() + method + params_key() + params
        + seq![125u8]
}

/// The JSON text of a notification of `method` (already quoted) with `params`.
pub open spec fn notification_body(method: Seq<u8>, params: Seq<u8>) -> Seq<u8> {
    notification_head() + method + params_key() + params + seq![125u8]
}

pub open spec fn id_key() -> Seq<u8> {
    seq![105u8, 100]
}

pub open spec fn method_name() -> Seq<u8> {
    seq![109u8, 101, 116, 104, 111, 100]
}

pub open spec fn result_key() -> Seq<u8> {
    seq![114u8, 101, 115, 117, 108, 116]
}

pub open spec fn error_key() -> Seq<u8> {
    seq![101u8, 114, 114, 111, 114]
}

/// The first position at or after `i` of a field named `key`, or -1.
pub open spec fn field_index(fields: Seq<(Vec<u8>, JsonValue)>, key: Seq<u8>, i: int) -> int
    decreases fields.len() - i,
{
    if i < 0 || i >= fields.len() {
        -1
    } else if fields[i].0@ == key {
        i
    } else {
        field_index(fields, key, i + 1)
    }
}

/// The request id that a value of an `id` field denotes: a number or a string
/// written in decimal digits that fits in 64 bits.
pub open spec fn id_of(v: JsonValue) -> Option<u64> {
    match v {
        JsonValue::Number(t) => digits_value(t@),
        JsonValue::Str(t) => digits_value(t@),
        _ => None,
    }
}

pub open spec fn digits_value(t: Seq<u8>) -> Option<u64> {
    if t.len() > 0 && all_digits(t) && decimal_value(t) <= u64::MAX {
        Some(decimal_value(t) as u64)
    } else {
        None
    }
}

/// The kinds of incoming message. `at` is the position of the `result` or
/// `error` field.
pub ghost enum Envelope {
    Notification,
    Request,
    Success { id: Option<u64>, at: int },
    Failure { id: Option<u64>, at: int },
    Malformed,
}

/// How an incoming message is read: with a `method`, a request if it has an
/// `id` and a notification if not; else, with an `id`, a success if it has a
/// `result` and a failure if it has an `error`; anything else is malformed.
pub open spec fn envelope_of(msg: JsonValue) -> Envelope {
    match msg {
        JsonValue::Object(fields) => {
            let m = field_index(fields@, method_name(), 0);
            let i = field_index(fields@, id_key(), 0);
            let r = field_index(fields@, result_key(), 0);
            let e = field_index(fields@, error_key(), 0);
            if m >= 0 {
                if i >= 0 {
                    Envelope::Request
                } else {
                    Envelope::Notification
                }
            } else if i >= 0 && r >= 0 {
                Envelope::Success { id: id_of(fields@[i].1), at: r }
            } else if i >= 0 && e >= 0 {
                Envelope::Failure { id: id_of(fields@[i].1), at: e }
            } else {
                Envelope::Malformed
            }
        },
        _ => Envelope::Malformed,
    }
}

/// The value of field `at` of an object message.
pub open spec fn field_value(msg: JsonValue, at: int) -> JsonValue {
    match msg {
        JsonValue::Object(fields) => fields@[at].1,
        _ => JsonValue::Null,
    }
}

/// The client end of one connection.
pub struct RpcClient<T> {
    table: CorrelationTable<T>,
    state: TransportState,
    outgoing: Vec<u8>,
}

/// `a` and `b` hold the same requests, counter, state and unsent bytes.
pub open spec fn unchanged<T>(a: RpcClient<T>, b: RpcClient<T>) -> bool {
    &&& b.pending() == a.pending()
    &&& b.next_id() == a.next_id()
    &&& b.state() == a.state()
    &&& b.outgoing() == a.outgoing()
}

pub open spec fn is_open(s: TransportState) -> bool {
    s == TransportState::Starting || s == TransportState::Running
}

/// What `send_request` did, going from `a` to `b`.
pub open spec fn request_sent<T>(
    a: RpcClient<T>,
    b: RpcClient<T>,
    method: Seq<char>,
    params: Seq<u8>,
    handle: T,
    r: Result<u64, ClientError>,
) -> bool {
    &&& b.wf()
    &&& is_open(a.state()) ==> r is Ok
    &&& !is_open(a.state()) ==> r == Err::<u64, ClientError>(ClientError::TransportClosed)
    &&& match r {
        Ok(id) => {
            &&& is_open(a.state())
            &&& !a.pending().contains_key(id)
            &&& id == a.next_id()
            &&& b.next_id() == id + 1
            &&& b.pending() == a.pending().insert(id, handle)
            &&& b.state() == a.state()
            &&& b.outgoing() == a.outgoing() + frame_of(
                request_body(id, json_string_of(method), params),
            )
        },
        Err(e) => unchanged(a, b),
    }
}

/// What `dispatch` did with `msg`, going from `a` to `b`.
pub open spec fn dispatched<T>(
    a: RpcClient<T>,
    b: RpcClient<T>,
    msg: JsonValue,
    r: Result<Dispatched<T>, DispatchError>,
) -> bool {
    &&& b.wf()
    &&& b.next_id() == a.next_id()
    &&& b.state() == a.state()
    &&& b.outgoing() == a.outgoing()
    &&& match envelope_of(msg) {
        Envelope::Notification => r == Ok::<Dispatched<T>, DispatchError>(
            Dispatched::Notification(msg),
        ) && b.pending() == a.pending(),
        Envelope::Request => r == Ok::<Dispatched<T>, DispatchError>(
            Dispatched::UnexpectedRequest(msg),
        ) && b.pending() == a.pending(),
        Envelope::Malformed => r == Err::<Dispatched<T>, DispatchError>(
            DispatchError::MalformedEnvelope,
        ) && b.pending() == a.pending(),
        Envelope::Success { id: None, at } => r == Err::<Dispatched<T>, DispatchError>(
            DispatchError::InvalidId,
        ) && b.pending() == a.pending(),
        Envelope::Failure { id: None, at } => r == Err::<Dispatched<T>, DispatchError>(
            DispatchError::InvalidId,
        ) && b.pending() == a.pending(),
        Envelope::Success { id: Some(k), at } => if a.pending().contains_key(k) {
            r == Ok::<Dispatched<T>, DispatchError>(
                Dispatched::Reply {
                    id: k,
                    handle: a.pending()[k],
                    outcome: Ok(field_value(msg, at)),
                },
            ) && b.pending() == a.pending().remove(k)
        } else {
            r == Err::<Dispatched<T>, DispatchError>(DispatchError::UnknownId(k)) && b.pending()
                == a.pending()
        },
        Envelope::Failure { id: Some(k), at } => if a.pending().contains_key(k) {
            r == Ok::<Dispatched<T>, DispatchError>(
                Dispatched::Reply {
                    id: k,
                    handle: a.pending()[k],
                    outcome: Err(field_value(msg, at)),
                },
            ) && b.pending() == a.pending().remove(k)
        } else {
            r == Err::<Dispatched<T>, DispatchError>(DispatchError::UnknownId(k)) && b.pending()
                == a.pending()
        },
    }
}

/// `list` holds each request of `pending` once, and nothing else.
pub open spec fn holds_each_once<T>(list: Seq<(u64, T)>, pending: Map<u64, T>) -> bool {
    &&& forall|i: int, j: int| 0 <= i < j < list.len() ==> #[trigger] list[i].0 != #[trigger] list[j].0
    &&& forall|i: int|
        0 <= i < list.len() ==> pending.contains_key(#[trigger] list[i].0) && pending[list[i].0]
            == list[i].1
    &&& forall|k: u64|
        #[trigger] pending.contains_key(k) ==> exists|i: int| 0 <= i < list.len() && #[trigger] list[i].0 == k
}

/// The connection went from `a` to `b` by shutting down, handing back `disconnected`.
pub open spec fn shut_down<T>(a: RpcClient<T>, b: RpcClient<T>, disconnected: Seq<(u64, T)>) -> bool {
    &&& b.wf()
    &&& b.state() == (if a.state() == TransportState::Closed {
        TransportState::Closed
    } else {
        TransportState::Closing
    })
    &&& b.pending() == Map::<u64, T>::empty()
    &&& b.next_id() == a.next_id()
    &&& b.outgoing() == a.outgoing()
    &&& holds_each_once(disconnected, a.pending())
}

/// The frame of request `id` to a method, given as its JSON string literal
/// `quoted_method`, with `params`, the JSON text of its parameters.
pub fn request_frame(id: u64, quoted_method: &[u8], params: &[u8]) -> (r: Vec<u8>)
    ensures
        r@ == frame_of(request_body(id, quoted_method@, params@)),
{
    let mut body: Vec<u8> = vec![123u8, 34, 106, 115, 111, 110, 114, 112, 99, 34, 58, 34, 50, 46, 48, 34, 44, 34, 105, 100, 34, 58];
    push_decimal(id, &mut body);
    let mut key: Vec<u8> = vec![44u8, 34, 109, 101, 116, 104, 111, 100, 34, 58];
    body.append(&mut key);
    let mut q = vstd::slice::slice_to_vec(quoted_method);
    body.append(&mut q);
    let mut pkey: Vec<u8> = vec![44u8, 34, 112, 97, 114, 97, 109, 115, 34, 58];
    body.append(&mut pkey);
    let mut p = vstd::slice::slice_to_vec(params);
    body.append(&mut p);
    body.push(125);
    assert(body@ =~= request_body(id, quoted_method@, params@));
    encode_frame(body.as_slice())
}

/// The frame of a notification of a method, given as its JSON string
/// literal `quoted_method`, with `params`, the JSON text of its parameters.
pub fn notification_frame(quoted_method: &[u8], params: &[u8]) -> (r: Vec<u8>)
    ensures
        r@ == frame_of(notification_body(quoted_method@, params@)),
{
    let mut body: Vec<u8> = vec![123u8, 34, 106, 115, 111, 110, 114, 112, 99, 34, 58, 34, 50, 46, 48, 34, 44, 34, 109, 101, 116, 104, 111, 100, 34, 58];
    let mut q = vstd::slice::slice_to_vec(quoted_method);
    body.append(&mut q);
    let mut pkey: Vec<u8> = vec![44u8, 34, 112, 97, 114, 97, 109, 115, 34, 58];
    body.append(&mut pkey);
    let mut p = vstd::slice::slice_to_vec(params);
    body.append(&mut p);
    body.push(125);
    assert(body@ =~= notification_body(quoted_method@, params@));
    encode_frame(body.as_slice())
}

/// The connection went from `a` to `b` by finishing its shutdown.
pub open spec fn close_finished<T>(a: RpcClient<T>, b: RpcClient<T>) -> bool {
    &&& b.wf()
    &&& b.state() == (if a.state() == TransportState::Closing {
        TransportState::Closed
    } else {
        a.state()
    })
    &&& b.pending() == a.pending()
    &&& b.next_id() == a.next_id()
    &&& b.outgoing() == a.outgoing()
}

fn bytes_equal(a: &Vec<u8>, b: &Vec<u8>) -> (r: bool)
    ensures
        r == (a@ == b@),
{
    if a.len() != b.len() {
        return false;
    }
    let mut i: usize = 0;
    while i < a.len()
        invariant
            i <= a@.len(),
            a@.len() == b@.len(),
            forall|j: int| 0 <= j < i ==> a@[j] == b@[j],
        decreases a@.len() - i,
    {
        if a[i] != b[i] {
            return false;
        }
        i = i + 1;
    }
    assert(a@ =~= b@);
    true
}

/// The position of the first field named `key`.
fn find_field(fields: &Vec<(Vec<u8>, JsonValue)>, key: &Vec<u8>) -> (r: Option<usize>)
    ensures
        match r {
            Some(i) => i as int == field_index(fields@, key@, 0) && i < fields@.len(),
            None => field_index(fields@, key@, 0) == -1,
        },
{
    let mut i: usize = 0;
    while i < fields.len()
        invariant
            i <= fields@.len(),
            field_index(fields@, key@, i as int) == field_index(fields@, key@, 0),
        decreases fields@.len() - i,
    {
        if bytes_equal(&fields[i].0, key) {
            return Some(i);
        }
        i = i + 1;
    }
    None
}

fn id_value(v: &JsonValue) -> (r: Option<u64>)
    ensures
        r == id_of(*v),
{
    match v {
        JsonValue::Number(t) => parse_decimal(t.as_slice()),
        JsonValue::Str(t) => parse_decimal(t.as_slice()),
        _ => None,
    }
}

impl<T> RpcClient<T> {
    /// The requests that wait for a reply, by id.
    pub closed spec fn pending(&self) -> Map<u64, T> {
        self.table@
    }

    /// The id that the next request gets.
    pub closed spec fn next_id(&self) -> u64 {
        self.table.next()
    }

    pub closed spec fn state(&self) -> TransportState {
        self.state
    }

    /// The framed bytes written and not yet taken for the server's input.
    pub closed spec fn outgoing(&self) -> Seq<u8> {
        self.outgoing@
    }

    pub closed spec fn wf(&self) -> bool {
        self.table.wf()
    }

    /// A connection whose reader has not started, with no request sent.
    pub fn new() -> (r: Self)
        ensures
            r.wf(),
            r.pending() == Map::<u64, T>::empty(),
            r.next_id() == 1,
            r.state() == TransportState::Starting,
            r.outgoing() == Seq::<u8>::empty(),
    {
        RpcClient { table: CorrelationTable::new(), state: TransportState::Starting, outgoing: Vec::new() }
    }

    /// The reader of the server's output has started.
    pub fn start(&mut self)
        requires
            old(self).wf(),
        ensures
            final(self).wf(),
            final(self).state() == (if old(self).state() == TransportState::Starting {
                TransportState::Running
            } else {
                old(self).state()
            }),
            final(self).pending() == old(self).pending(),
            final(self).next_id() == old(self).next_id(),
            final(self).outgoing() == old(self).outgoing(),
    {
        if self.state == TransportState::Starting {
            self.state = TransportState::Running;
        }
    }

    pub fn state_now(&self) -> (r: TransportState)
        ensures
            r == self.state(),
    {
        self.state
    }

    /// Whether another request id can be handed out.
    pub fn has_ids_left(&self) -> (r: bool)
        requires
            self.wf(),
        ensures
            r == (self.next_id() < u64::MAX),
    {
        self.table.has_ids_left()
    }

    /// Whether request `id` still waits for its reply.
    pub fn is_pending(&self, id: u64) -> (r: bool)
        requires
            self.wf(),
        ensures
            r == self.pending().contains_key(id),
    {
        self.table.is_pending(id)
    }

    /// Sends request `method` with `params`, the JSON text of its parameters,
    /// and keeps `handle` until the reply comes. The request gets the next id,
    /// and its frame is written in the same step in which the handle is stored,
    /// so no reply can be read before it.
    pub fn send_request(&mut self, method: &str, params: &[u8], handle: T) -> (r: Result<u64, ClientError>)
        requires
            old(self).wf(),
            old(self).next_id() < u64::MAX,
        ensures
            request_sent(*old(self), *final(self), method@, params@, handle, r),
    {
        if self.state == TransportState::Closing || self.state == TransportState::Closed {
            return Err(ClientError::TransportClosed);
        }
        let quoted = match quote_json(method) {
            Some(q) => q,
            None => {
                return Err(ClientError::Serialization);
            },
        };
        let id = self.table.allocate_id();
        let mut frame = request_frame(id, quoted.as_slice(), params);
        self.outgoing.append(&mut frame);
        self.table.register(id, handle);
        Ok(id)
    }

    /// Sends notification `method` with `params`, the JSON text of its
    /// parameters. No id, no reply.
    pub fn send_notification(&mut self, method: &str, params: &[u8]) -> (r: Result<(), ClientError>)
        requires
            old(self).wf(),
        ensures
            final(self).wf(),
            final(self).pending() == old(self).pending(),
            final(self).next_id() == old(self).next_id(),
            final(self).state() == old(self).state(),
            is_open(old(self).state()) ==> r is Ok,
            !is_open(old(self).state()) ==> r == Err::<(), ClientError>(ClientError::TransportClosed)
                && final(self).outgoing() == old(self).outgoing(),
            r is Ok ==> is_open(old(self).state()) && final(self).outgoing() == old(self).outgoing()
                + frame_of(notification_body(json_string_of(method@), params@)),
            r matches Err(e) ==> final(self).outgoing() == old(self).outgoing() && (is_open(
                old(self).state(),
            ) ==> e == ClientError::Serialization),
    {
        if self.state == TransportState::Closing || self.state == TransportState::Closed {
            return Err(ClientError::TransportClosed);
        }
        let quoted = match quote_json(method) {
            Some(q) => q,
            None => {
                return Err(ClientError::Serialization);
            },
        };
        let mut frame = notification_frame(quoted.as_slice(), params);
        self.outgoing.append(&mut frame);
        Ok(())
    }

    /// Takes the bytes written so far, for the server's input.
    pub fn take_outgoing(&mut self) -> (r: Vec<u8>)
        requires
            old(self).wf(),
        ensures
            final(self).wf(),
            r@ == old(self).outgoing(),
            final(self).outgoing() == Seq::<u8>::empty(),
            final(self).pending() == old(self).pending(),
            final(self).next_id() == old(self).next_id(),
            final(self).state() == old(self).state(),
    {
        let mut taken: Vec<u8> = Vec::new();
        std::mem::swap(&mut taken, &mut self.outgoing);
        taken
    }
    /// Routes one message read from the server. A reply takes out the
    /// request it answers, so each request is answered at most once; a reply
    /// that no request waits on changes nothing.
    pub fn dispatch(&mut self, msg: JsonValue) -> (r: Result<Dispatched<T>, DispatchError>)
        requires
            old(self).wf(),
        ensures
            dispatched(*old(self), *final(self), msg, r),
    {
        match msg {
            JsonValue::Object(mut fields) => {
                let method_k: Vec<u8> = vec![109u8, 101, 116, 104, 111, 100];
                let id_k: Vec<u8> = vec![105u8, 100];
                let result_k: Vec<u8> = vec![114u8, 101, 115, 117, 108, 116];
                let error_k: Vec<u8> = vec![101u8, 114, 114, 111, 114];
                assert(method_k@ =~= method_name());
                assert(id_k@ =~= id_key());
                assert(result_k@ =~= result_key());
                assert(error_k@ =~= error_key());
                let m = find_field(&fields, &method_k);
                let i = find_field(&fields, &id_k);
                let r = find_field(&fields, &result_k);
                let e = find_field(&fields, &error_k);
                match m {
                    Some(_) => {
                        return match i {
                            Some(_) => Ok(Dispatched::UnexpectedRequest(JsonValue::Object(fields))),
                            None => Ok(Dispatched::Notification(JsonValue::Object(fields))),
                        };
                    },
                    None => {},
                }
                let i = match i {
                    Some(i) => i,
                    None => {
                        return Err(DispatchError::MalformedEnvelope);
                    },
                };
                let (at, success) = match r {
                    Some(r) => (r, true),
                    None => match e {
                        Some(e) => (e, false),
                        None => {
                            return Err(DispatchError::MalformedEnvelope);
                        },
                    },
                };
                let k = match id_value(&fields[i].1) {
                    Some(k) => k,
                    None => {
                        return Err(DispatchError::InvalidId);
                    },
                };
                match self.table.resolve(k) {
                    None => Err(DispatchError::UnknownId(k)),
                    Some(handle) => {
                        let (_, v) = fields.remove(at);
                        let outcome = if success {
                            Ok(v)
                        } else {
                            Err(v)
                        };
                        Ok(Dispatched::Reply { id: k, handle, outcome })
                    },
                }
            },
            _ => Err(DispatchError::MalformedEnvelope),
        }
    }

    /// Ends the connection: the state becomes `Closing` (or stays `Closed`)
    /// and every waiting request is handed back, once each, to be told that
    /// the server went away. Requests sent after this fail.
    pub fn close(&mut self) -> (r: Vec<(u64, T)>)
        requires
            old(self).wf(),
        ensures
            shut_down(*old(self), *final(self), r@),
    {
        if self.state != TransportState::Closed {
            self.state = TransportState::Closing;
        }
        self.table.drain()
    }

    /// The waiting requests have been told; the connection is `Closed` for good.
    pub fn finish_close(&mut self)
        requires
            old(self).wf(),
        ensures
            close_finished(*old(self), *final(self)),
    {
        if self.state == TransportState::Closing {
            self.state = TransportState::Closed;
        }
    }

    /// Decides what the reader of the server's output does with what
    /// `decode_frame` made of its buffer: hand a frame on, read more, or, at
    /// the end of the stream or on a framing error, close the connection.
    pub fn on_read(&mut self, r: Result<Decoded, FramingError>) -> (step: ReaderStep<T>)
        requires
            old(self).wf(),
        ensures
            match r {
                Ok(Decoded::Frame { body, consumed }) => step == (ReaderStep::<T>::Deliver {
                    body,
                    consumed,
                }) && unchanged(*old(self), *final(self)) && final(self).wf(),
                Ok(Decoded::NeedMore) => step == ReaderStep::<T>::ReadMore && unchanged(
                    *old(self),
                    *final(self),
                ) && final(self).wf(),
                Ok(Decoded::Eof) => step matches ReaderStep::Stop { disconnected, error } && error
                    == None::<FramingError> && shut_down(*old(self), *final(self), disconnected@),
                Err(e) => step matches ReaderStep::Stop { disconnected, error } && error == Some(e)
                    && shut_down(*old(self), *final(self), disconnected@),
            },
    {
        match r {
            Ok(Decoded::Frame { body, consumed }) => ReaderStep::Deliver { body, consumed },
            Ok(Decoded::NeedMore) => ReaderStep::ReadMore,
            Ok(Decoded::Eof) => {
                let disconnected = self.close();
                ReaderStep::Stop { disconnected, error: None }
            },
            Err(e) => {
                let disconnected = self.close();
                ReaderStep::Stop { disconnected, error: Some(e) }
            },
        }
    }
}

} // verus!
