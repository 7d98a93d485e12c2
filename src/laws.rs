//! Properties of whole runs of the client, proved from the contracts of its
//! operations.
use vstd::prelude::*;
use crate::client::{
    close_finished, dispatched, envelope_of, holds_each_once, is_open, request_sent, shut_down,
    ClientError, DispatchError, Dispatched, Envelope, JsonValue, RpcClient, TransportState,
};

verus! {

/// `k` is the id of the reply that `msg` carries.
pub open spec fn reply_id(msg: JsonValue, k: u64) -> bool {
    match envelope_of(msg) {
        Envelope::Success { id, at } => id == Some(k),
        Envelope::Failure { id, at } => id == Some(k),
        _ => false,
    }
}

proof fn lemma_counter_never_falls<T>(
    states: Seq<RpcClient<T>>,
    results: Seq<Result<u64, ClientError>>,
    methods: Seq<Seq<char>>,
    params: Seq<Seq<u8>>,
    handles: Seq<T>,
    i: int,
    j: int,
)
    requires
        states.len() == results.len() + 1,
        methods.len() == results.len(),
        params.len() == results.len(),
        handles.len() == results.len(),
        forall|n: int|
            0 <= n < results.len() ==> request_sent(
                #[trigger] states[n],
                states[n + 1],
                methods[n],
                params[n],
                handles[n],
                results[n],
            ),
        0 <= i <= j < states.len(),
    ensures
        states[j].next_id() >= states[i].next_id(),
    decreases j - i,
{
    if i < j {
        lemma_counter_never_falls(states, results, methods, params, handles, i, j - 1);
        assert(request_sent(
            states[j - 1],
            states[j],
            methods[j - 1],
            params[j - 1],
            handles[j - 1],
            results[j - 1],
        ));
    }
}

/// Over any run of `send_request` calls, each state the result of the one
/// before, the ids of the requests that were sent rise strictly, so no two
/// are equal; calls that failed hand out no id.
pub proof fn lemma_request_ids_increase<T>(
    states: Seq<RpcClient<T>>,
    results: Seq<Result<u64, ClientError>>,
    methods: Seq<Seq<char>>,
    params: Seq<Seq<u8>>,
    handles: Seq<T>,
)
    requires
        states.len() == results.len() + 1,
        methods.len() == results.len(),
        params.len() == results.len(),
        handles.len() == results.len(),
        forall|n: int|
            0 <= n < results.len() ==> request_sent(
                #[trigger] states[n],
                states[n + 1],
                methods[n],
                params[n],
                handles[n],
                results[n],
            ),
    ensures
        forall|i: int, j: int|
            0 <= i < j < results.len() && results[i] is Ok && results[j] is Ok ==> results[i]->Ok_0
                < results[j]->Ok_0,
{
    assert forall|i: int, j: int|
        0 <= i < j < results.len() && results[i] is Ok && results[j] is Ok implies results[i]->Ok_0
        < results[j]->Ok_0 by {
        lemma_counter_never_falls(states, results, methods, params, handles, i + 1, j);
        assert(request_sent(states[i], states[i + 1], methods[i], params[i], handles[i], results[i]));
        assert(request_sent(states[j], states[j + 1], methods[j], params[j], handles[j], results[j]));
    };
}

/// A reply reaches the handle of request `k` only while `k` waits, that is
/// after the request was sent; once it has, a second reply to `k` finds no
/// request and changes nothing, so each handle is answered at most once.
pub proof fn lemma_answered_once<T>(
    c0: RpcClient<T>,
    c1: RpcClient<T>,
    c2: RpcClient<T>,
    m1: JsonValue,
    m2: JsonValue,
    r1: Result<Dispatched<T>, DispatchError>,
    r2: Result<Dispatched<T>, DispatchError>,
    k: u64,
)
    requires
        dispatched(c0, c1, m1, r1),
        dispatched(c1, c2, m2, r2),
        r1 matches Ok(Dispatched::Reply { id, handle, outcome }) && id == k,
        reply_id(m2, k),
    ensures
        c0.pending().contains_key(k),
        r1 matches Ok(Dispatched::Reply { id, handle, outcome }) && handle == c0.pending()[k],
        !c1.pending().contains_key(k),
        r2 == Err::<Dispatched<T>, DispatchError>(DispatchError::UnknownId(k)),
        c2.pending() == c1.pending(),
{
}

/// A reply to an id that no request waits on is reported as unknown and
/// leaves the client as it was, so the frames after it are read as if it
/// had never come.
pub proof fn lemma_unknown_reply_harmless<T>(
    c0: RpcClient<T>,
    c1: RpcClient<T>,
    msg: JsonValue,
    r: Result<Dispatched<T>, DispatchError>,
    k: u64,
)
    requires
        dispatched(c0, c1, msg, r),
        reply_id(msg, k),
        !c0.pending().contains_key(k),
    ensures
        r == Err::<Dispatched<T>, DispatchError>(DispatchError::UnknownId(k)),
        c1.pending() == c0.pending(),
        c1.next_id() == c0.next_id(),
        c1.state() == c0.state(),
        c1.outgoing() == c0.outgoing(),
{
}

/// When the connection is shut down, each waiting request is handed back
/// once to be told of it, none is left waiting, and a request sent
/// afterwards fails.
pub proof fn lemma_close_disconnects_all<T>(
    c0: RpcClient<T>,
    c1: RpcClient<T>,
    disconnected: Seq<(u64, T)>,
    c2: RpcClient<T>,
    method: Seq<char>,
    params: Seq<u8>,
    handle: T,
    r: Result<u64, ClientError>,
)
    requires
        shut_down(c0, c1, disconnected),
        request_sent(c1, c2, method, params, handle, r),
    ensures
        forall|i: int, j: int|
            0 <= i < j < disconnected.len() ==> #[trigger] disconnected[i].0
                != #[trigger] disconnected[j].0,
        forall|k: u64|
            #[trigger] c0.pending().contains_key(k) ==> exists|i: int|
                0 <= i < disconnected.len() && #[trigger] disconnected[i].0 == k
                    && disconnected[i].1 == c0.pending()[k],
        c1.pending().is_empty(),
        !is_open(c1.state()),
        r == Err::<u64, ClientError>(ClientError::TransportClosed),
        c2.pending().is_empty(),
{
    assert forall|k: u64| #[trigger] c0.pending().contains_key(k) implies exists|i: int|
        0 <= i < disconnected.len() && #[trigger] disconnected[i].0 == k && disconnected[i].1
            == c0.pending()[k] by {
        let i = choose|i: int| 0 <= i < disconnected.len() && #[trigger] disconnected[i].0 == k;
        assert(disconnected[i].0 == k);
    };
    assert(c1.pending() =~= Map::<u64, T>::empty());
}

/// When the server's output ends or breaks while the connection runs, the
/// connection goes to `Closing`, hands back each waiting request once, then
/// to `Closed`, where it stays: every request sent afterwards fails and
/// changes nothing.
pub proof fn lemma_stream_end_closes<T>(
    c0: RpcClient<T>,
    c1: RpcClient<T>,
    disconnected: Seq<(u64, T)>,
    c2: RpcClient<T>,
    c3: RpcClient<T>,
    method: Seq<char>,
    params: Seq<u8>,
    handle: T,
    r: Result<u64, ClientError>,
)
    requires
        c0.state() == TransportState::Running,
        shut_down(c0, c1, disconnected),
        close_finished(c1, c2),
        request_sent(c2, c3, method, params, handle, r),
    ensures
        c1.state() == TransportState::Closing,
        holds_each_once(disconnected, c0.pending()),
        c2.state() == TransportState::Closed,
        c2.pending().is_empty(),
        r == Err::<u64, ClientError>(ClientError::TransportClosed),
        c3.state() == TransportState::Closed,
        c3.pending() == c2.pending(),
        c3.outgoing() == c2.outgoing(),
        c3.next_id() == c2.next_id(),
{
    assert(c1.pending() =~= Map::<u64, T>::empty());
}

} // verus!
