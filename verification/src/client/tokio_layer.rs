//! The bookkeeping of the HTTP/2 transport: which HTTP/2 stream carries which Tokio request,
//! which responses are complete and waiting to be handed to Tokio, and the decisions taken when
//! Tokio asks the transport to flush.
//!
//! Also exposes the `H2ClientTokioProto`, which produces the client preface that starts every
//! cleartext HTTP/2 connection.
use super::{Http2Error, HttpRequestBody, HttpRequestHeaders, HttpResponseHeaders, TokioSyncError};
use solicit::http::Header;
use std::collections::{HashMap, HashSet};
use vstd::prelude::*;

verus! {

broadcast use vstd::std_specs::hash::group_hash_axioms;

/// The largest stream identifier that HTTP/2 allows (31 bits).
pub const MAX_STREAM_ID: u32 = 2147483647;

/// The view of a response: its headers and its body.
pub open spec fn response_view(r: HttpResponseHeaders) -> (Seq<(Seq<u8>, Seq<u8>)>, Seq<u8>) {
    (r.headers.deep_view(), r.body@)
}

/// An HTTP/2 stream that the peer has closed, as the session reported it.
pub struct ClosedStream {
    pub stream_id: u32,
    pub headers: Vec<Header>,
    pub body: Vec<u8>,
}

/// The view of a closed stream: its id, headers and body.
pub open spec fn closed_view(c: ClosedStream) -> (u32, (Seq<(Seq<u8>, Seq<u8>)>, Seq<u8>)) {
    (c.stream_id, (c.headers.deep_view(), c.body@))
}

/// The abstract state of the transport's bookkeeping.
pub struct TransportView {
    /// The identifier that the next request's stream gets.
    pub next_stream_id: nat,
    /// HTTP/2 stream id to Tokio request id.
    pub requests_by_stream: Map<u32, u64>,
    /// Tokio request id to HTTP/2 stream id.
    pub streams_by_request: Map<u64, u32>,
    /// Complete responses, each with the Tokio request id that it answers, oldest first.
    pub ready: Seq<(u64, (Seq<(Seq<u8>, Seq<u8>)>, Seq<u8>))>,
    /// The requests whose body has ended: no further body chunk may come for them.
    pub ended_bodies: Set<u64>,
}

/// The responses that a list of closed streams yields: each stream's headers and body, paired
/// with the request that the stream carries.
pub open spec fn responses_for(
    requests_by_stream: Map<u32, u64>,
    closed: Seq<(u32, (Seq<(Seq<u8>, Seq<u8>)>, Seq<u8>))>,
) -> Seq<(u64, (Seq<(Seq<u8>, Seq<u8>)>, Seq<u8>))> {
    closed.map_values(|c: (u32, (Seq<(Seq<u8>, Seq<u8>)>, Seq<u8>))| (requests_by_stream[c.0], c.1))
}

/// Keeps track of the requests in flight on an HTTP/2 connection and of the responses that are
/// ready to be handed back.
pub struct H2ClientTokioTransport {
    next_stream_id: u32,
    ready_responses: Vec<(u64, HttpResponseHeaders)>,
    h2stream_to_tokio_request: HashMap<u32, u64>,
    tokio_request_to_h2stream: HashMap<u64, u32>,
    ended_bodies: HashSet<u64>,
}

impl View for H2ClientTokioTransport {
    type V = TransportView;

    closed spec fn view(&self) -> TransportView {
        TransportView {
            next_stream_id: self.next_stream_id as nat,
            requests_by_stream: self.h2stream_to_tokio_request@,
            streams_by_request: self.tokio_request_to_h2stream@,
            ready: self.ready_responses@.map_values(
                |r: (u64, HttpResponseHeaders)| (r.0, response_view(r.1)),
            ),
            ended_bodies: self.ended_bodies@,
        }
    }
}

impl TransportView {
    /// Client streams have odd identifiers; every stream in use has one below the next to be
    /// given out, every request's stream maps back to that request, and every stream's request is
    /// known. (A stream that an earlier exchange with a reused request id was using keeps its
    /// request, so that its response is still delivered.)
    pub open spec fn wf(self) -> bool {
        &&& self.next_stream_id % 2 == 1
        &&& forall|s: u32| #[trigger]
            self.requests_by_stream.contains_key(s) ==> s % 2 == 1 && s < self.next_stream_id
        &&& forall|r: u64| #[trigger]
            self.streams_by_request.contains_key(r) ==> {
                &&& self.requests_by_stream.contains_key(self.streams_by_request[r])
                &&& self.requests_by_stream[self.streams_by_request[r]] == r
            }
        &&& forall|s: u32| #[trigger]
            self.requests_by_stream.contains_key(s) ==> self.streams_by_request.contains_key(
                self.requests_by_stream[s],
            )
    }

    /// The two maps are inverse to each other: every request's stream maps back to that request,
    /// and every stream's request maps back to that stream.
    pub open spec fn inverse(self) -> bool {
        &&& forall|r: u64| #[trigger]
            self.streams_by_request.contains_key(r) ==> {
                &&& self.requests_by_stream.contains_key(self.streams_by_request[r])
                &&& self.requests_by_stream[self.streams_by_request[r]] == r
            }
        &&& forall|s: u32| #[trigger]
            self.requests_by_stream.contains_key(s) ==> {
                &&& self.streams_by_request.contains_key(self.requests_by_stream[s])
                &&& self.streams_by_request[self.requests_by_stream[s]] == s
            }
    }
}

impl TransportView {
    /// The state after a request is started on the next stream; its body has not ended yet.
    pub open spec fn started(self, request_id: u64) -> TransportView {
        TransportView {
            next_stream_id: self.next_stream_id + 2,
            requests_by_stream: self.requests_by_stream.insert(
                self.next_stream_id as u32,
                request_id,
            ),
            streams_by_request: self.streams_by_request.insert(
                request_id,
                self.next_stream_id as u32,
            ),
            ready: self.ready,
            ended_bodies: self.ended_bodies.remove(request_id),
        }
    }

    /// The state after the body of the request has ended.
    pub open spec fn body_ended(self, request_id: u64) -> TransportView {
        TransportView { ended_bodies: self.ended_bodies.insert(request_id), ..self }
    }
}

/// A started request and its stream find each other: the new stream was not in use before, it
/// carries the request, the request is carried by it, and every other stream keeps its request.
pub proof fn lemma_started_request_lookups(t: TransportView, request_id: u64, other: u32)
    requires
        t.wf(),
        t.next_stream_id <= MAX_STREAM_ID,
    ensures
        !t.requests_by_stream.contains_key(t.next_stream_id as u32),
        t.started(request_id).requests_by_stream[t.next_stream_id as u32] == request_id,
        t.started(request_id).streams_by_request[request_id] == t.next_stream_id as u32,
        other != t.next_stream_id ==> t.started(request_id).requests_by_stream.contains_key(other)
            == t.requests_by_stream.contains_key(other) && t.started(
            request_id,
        ).requests_by_stream[other] == t.requests_by_stream[other],
{
}

/// Starting a request changes only what belongs to it: the next stream id moves on by two, the
/// new stream carries the request and the request is carried by the new stream, every other
/// stream and request keeps its partner, the queue of ready responses is untouched, and only the
/// started request's body is no longer ended.
pub proof fn lemma_started_changes_only_the_request(t: TransportView, request_id: u64)
    ensures
        t.started(request_id).next_stream_id == t.next_stream_id + 2,
        t.started(request_id).ready == t.ready,
        t.started(request_id).requests_by_stream.contains_key(t.next_stream_id as u32),
        t.started(request_id).requests_by_stream[t.next_stream_id as u32] == request_id,
        t.started(request_id).streams_by_request.contains_key(request_id),
        t.started(request_id).streams_by_request[request_id] == t.next_stream_id as u32,
        forall|s: u32|
            s != t.next_stream_id as u32 ==> (#[trigger] t.started(
                request_id,
            ).requests_by_stream.contains_key(s) == t.requests_by_stream.contains_key(s)) && (
            t.started(request_id).requests_by_stream[s] == t.requests_by_stream[s]),
        forall|r: u64|
            r != request_id ==> (#[trigger] t.started(request_id).streams_by_request.contains_key(r)
                == t.streams_by_request.contains_key(r)) && (t.started(
                request_id,
            ).streams_by_request[r] == t.streams_by_request[r]),
        !t.started(request_id).ended_bodies.contains(request_id),
        forall|r: u64|
            r != request_id ==> #[trigger] t.started(request_id).ended_bodies.contains(r)
                == t.ended_bodies.contains(r),
{
}

/// Ending the body of a request marks that request, and no other, as ended; nothing else of the
/// state changes. A chunk for any other request whose body has not ended is still taken.
pub proof fn lemma_body_ended_marks_only_that_request(t: TransportView, request_id: u64)
    ensures
        t.body_ended(request_id).ended_bodies.contains(request_id),
        forall|r: u64|
            r != request_id ==> #[trigger] t.body_ended(request_id).ended_bodies.contains(r)
                == t.ended_bodies.contains(r),
        t.body_ended(request_id).next_stream_id == t.next_stream_id,
        t.body_ended(request_id).requests_by_stream == t.requests_by_stream,
        t.body_ended(request_id).streams_by_request == t.streams_by_request,
        t.body_ended(request_id).ready == t.ready,
{
}

/// Starting a request whose id is not in flight keeps the two maps inverse to each other: each
/// gains exactly the pair of the request and its new stream, and that stream was not in use.
pub proof fn lemma_fresh_request_keeps_maps_inverse(t: TransportView, request_id: u64)
    requires
        t.wf(),
        t.inverse(),
        !t.streams_by_request.contains_key(request_id),
        t.next_stream_id <= MAX_STREAM_ID,
    ensures
        t.started(request_id).inverse(),
        !t.requests_by_stream.contains_key(t.next_stream_id as u32),
        t.started(request_id).requests_by_stream == t.requests_by_stream.insert(
            t.next_stream_id as u32,
            request_id,
        ),
        t.started(request_id).streams_by_request == t.streams_by_request.insert(
            request_id,
            t.next_stream_id as u32,
        ),
{
    let u = t.started(request_id);
    let sid = t.next_stream_id as u32;
    assert forall|r: u64| #[trigger] u.streams_by_request.contains_key(r) implies {
        &&& u.requests_by_stream.contains_key(u.streams_by_request[r])
        &&& u.requests_by_stream[u.streams_by_request[r]] == r
    } by {
        if r != request_id {
            let s = t.streams_by_request[r];
            assert(t.requests_by_stream.contains_key(s));
            assert(s != sid);
        }
    }
    assert forall|s: u32| #[trigger] u.requests_by_stream.contains_key(s) implies {
        &&& u.streams_by_request.contains_key(u.requests_by_stream[s])
        &&& u.streams_by_request[u.requests_by_stream[s]] == s
    } by {
        if s != sid {
            assert(t.requests_by_stream.contains_key(s));
            let r = t.requests_by_stream[s];
            assert(t.streams_by_request.contains_key(r));
            assert(r != request_id);
        }
    }
}

/// Stream ids are never reused: each started request gets an odd id above every id given out
/// before, and the next id moves past it.
pub proof fn lemma_stream_ids_increase(t: TransportView, first: u64, second: u64)
    requires
        t.wf(),
        t.next_stream_id + 2 <= MAX_STREAM_ID,
    ensures
        t.next_stream_id % 2 == 1,
        t.started(first).next_stream_id == t.next_stream_id + 2,
        t.started(first).started(second).requests_by_stream[t.next_stream_id as u32] == first,
        t.started(first).started(second).requests_by_stream[(t.next_stream_id + 2) as u32]
            == second,
{
}

/// Each closed stream yields one response, in the order given: the `i`-th response answers the
/// request that the `i`-th stream carries, with that stream's headers and body.
pub proof fn lemma_responses_for_each_stream(
    requests_by_stream: Map<u32, u64>,
    closed: Seq<(u32, (Seq<(Seq<u8>, Seq<u8>)>, Seq<u8>))>,
)
    ensures
        responses_for(requests_by_stream, closed).len() == closed.len(),
        forall|i: int|
            0 <= i < closed.len() ==> #[trigger] responses_for(requests_by_stream, closed)[i] == (
                requests_by_stream[closed[i].0],
                closed[i].1,
            ),
{
}

/// Responses are handed out in the order in which their streams closed, each paired with the
/// request that its stream carries: after closing streams with nothing else waiting, the first
/// response dequeued answers the first closed stream.
pub proof fn lemma_responses_in_close_order(
    t: TransportView,
    closed: Seq<(u32, (Seq<(Seq<u8>, Seq<u8>)>, Seq<u8>))>,
)
    requires
        t.ready.len() == 0,
        closed.len() > 0,
    ensures
        (t.ready + responses_for(t.requests_by_stream, closed))[0] == (
            t.requests_by_stream[closed[0].0],
            closed[0].1,
        ),
        (t.ready + responses_for(t.requests_by_stream, closed)).drop_first() == responses_for(
            t.requests_by_stream,
            closed.drop_first(),
        ),
{
    assert(t.ready + responses_for(t.requests_by_stream, closed) =~= responses_for(
        t.requests_by_stream,
        closed,
    ));
    assert(responses_for(t.requests_by_stream, closed).drop_first() =~= responses_for(
        t.requests_by_stream,
        closed.drop_first(),
    ));
}

impl H2ClientTokioTransport {
    /// Creates the bookkeeping of a fresh connection: no request in flight, nothing ready, and
    /// stream 1 as the first stream to use.
    pub fn new() -> (t: H2ClientTokioTransport)
        ensures
            t@.wf(),
            t@.next_stream_id == 1,
            t@.requests_by_stream == Map::<u32, u64>::empty(),
            t@.streams_by_request == Map::<u64, u32>::empty(),
            t@.ready == Seq::<(u64, (Seq<(Seq<u8>, Seq<u8>)>, Seq<u8>))>::empty(),
            t@.ended_bodies == Set::<u64>::empty(),
    {
        let t = H2ClientTokioTransport {
            next_stream_id: 1,
            ready_responses: Vec::new(),
            h2stream_to_tokio_request: HashMap::new(),
            tokio_request_to_h2stream: HashMap::new(),
            ended_bodies: HashSet::new(),
        };
        assert(t@.ready =~= Seq::<(u64, (Seq<(Seq<u8>, Seq<u8>)>, Seq<u8>))>::empty());
        t
    }

    /// Starts tracking a new request: gives it the next HTTP/2 stream id and records the
    /// mapping between the Tokio request id and that stream in both directions; the new request's
    /// body has not ended. A stream that an earlier exchange with the same request id was using
    /// keeps its request.
    ///
    /// Returns `None`, and changes nothing, once the stream ids are exhausted.
    pub fn start_request(&mut self, request_id: u64) -> (stream_id: Option<u32>)
        requires
            old(self)@.wf(),
        ensures
            final(self)@.wf(),
            old(self)@.next_stream_id > MAX_STREAM_ID ==> stream_id is None && final(self)@ == old(
                self,
            )@,
            old(self)@.next_stream_id <= MAX_STREAM_ID ==> {
                &&& stream_id == Some(old(self)@.next_stream_id as u32)
                &&& final(self)@ == old(self)@.started(request_id)
                &&& final(self)@.ready == old(self)@.ready
                &&& final(self)@.requests_by_stream == old(self)@.requests_by_stream.insert(
                    old(self)@.next_stream_id as u32,
                    request_id,
                )
                &&& final(self)@.streams_by_request == old(self)@.streams_by_request.insert(
                    request_id,
                    old(self)@.next_stream_id as u32,
                )
                &&& final(self)@.ended_bodies == old(self)@.ended_bodies.remove(request_id)
            },
    {
        if self.next_stream_id > MAX_STREAM_ID {
            return None;
        }
        let stream_id = self.next_stream_id;
        let ghost o = self@;
        self.next_stream_id = stream_id + 2;
        self.h2stream_to_tokio_request.insert(stream_id, request_id);
        self.tokio_request_to_h2stream.insert(request_id, stream_id);
        self.ended_bodies.remove(&request_id);
        proof {
            let v = self@;
            assert(v == o.started(request_id));
            assert forall|s: u32| #[trigger] v.requests_by_stream.contains_key(s) implies s % 2 == 1
                && s < v.next_stream_id by {
                if s != stream_id {
                    assert(o.requests_by_stream.contains_key(s));
                }
            }
            assert forall|r: u64| #[trigger] v.streams_by_request.contains_key(r) implies {
                &&& v.requests_by_stream.contains_key(v.streams_by_request[r])
                &&& v.requests_by_stream[v.streams_by_request[r]] == r
            } by {
                if r != request_id {
                    let s = o.streams_by_request[r];
                    assert(o.requests_by_stream.contains_key(s));
                    assert(o.requests_by_stream[s] == r);
                    assert(s < o.next_stream_id);
                    assert(s != stream_id);
                }
            }
            assert forall|s: u32| #[trigger] v.requests_by_stream.contains_key(s) implies
                v.streams_by_request.contains_key(v.requests_by_stream[s]) by {
                if s != stream_id {
                    assert(o.requests_by_stream.contains_key(s));
                }
            }
        }
        Some(stream_id)
    }

    /// The Tokio request that the given HTTP/2 stream carries, if the stream is known.
    pub fn request_for_stream(&self, stream_id: u32) -> (request_id: Option<u64>)
        ensures
            match request_id {
                Some(r) => self@.requests_by_stream.contains_key(stream_id)
                    && self@.requests_by_stream[stream_id] == r,
                None => !self@.requests_by_stream.contains_key(stream_id),
            },
    {
        match self.h2stream_to_tokio_request.get(&stream_id) {
            Some(r) => Some(*r),
            None => None,
        }
    }

    /// The HTTP/2 stream that carries the given Tokio request, if the request is known.
    pub fn stream_for_request(&self, request_id: u64) -> (stream_id: Option<u32>)
        ensures
            match stream_id {
                Some(s) => self@.streams_by_request.contains_key(request_id)
                    && self@.streams_by_request[request_id] == s,
                None => !self@.streams_by_request.contains_key(request_id),
            },
    {
        match self.tokio_request_to_h2stream.get(&request_id) {
            Some(s) => Some(*s),
            None => None,
        }
    }

    /// Queues up the responses that the given closed streams carry, in the order given, each
    /// paired with the Tokio request that its stream carries.
    ///
    /// For now, all responses effectively do not look like streamed responses: only once the
    /// full response is received, is Tokio notified.
    pub fn handle_closed_streams(&mut self, closed: Vec<ClosedStream>)
        requires
            old(self)@.wf(),
            forall|i: int|
                0 <= i < closed@.len() ==> old(self)@.requests_by_stream.contains_key(
                    #[trigger] closed@[i].stream_id,
                ),
        ensures
            final(self)@.wf(),
            final(self)@ == (TransportView {
                ready: old(self)@.ready + responses_for(
                    old(self)@.requests_by_stream,
                    closed@.map_values(|c: ClosedStream| closed_view(c)),
                ),
                ..old(self)@
            }),
    {
        let ghost start = self@;
        let ghost all = closed@.map_values(|c: ClosedStream| closed_view(c));
        let mut rest = closed;
        assert(all.len() == rest.len());
        let mut k: usize = 0;
        while rest.len() > 0
            invariant
                k + rest@.len() == all.len(),
                all.len() <= usize::MAX,
                start.wf(),
                self@.wf(),
                forall|i: int|
                    0 <= i < all.len() ==> start.requests_by_stream.contains_key(
                        #[trigger] all[i].0,
                    ),
                forall|j: int|
                    0 <= j < rest@.len() ==> closed_view(#[trigger] rest@[j]) == all[k + j],
                self@ == (TransportView {
                    ready: start.ready + responses_for(start.requests_by_stream, all.take(k as int)),
                    ..start
                }),
            decreases rest@.len(),
        {
            let c = rest.remove(0);
            let ghost cv = closed_view(c);
            assert(cv == all[k as int]);
            assert(start.requests_by_stream.contains_key(all[k as int].0));
            let request_id = match self.h2stream_to_tokio_request.get(&c.stream_id) {
                Some(r) => *r,
                None => 0,
            };
            let ClosedStream { stream_id: _, headers, body } = c;
            let ghost prev = self.ready_responses@;
            let response = HttpResponseHeaders { headers, body };
            assert(response_view(response) == cv.1);
            self.ready_responses.push((request_id, response));
            proof {
                assert(self.ready_responses@ == prev.push((request_id, response)));
                assert(self@.ready =~= prev.map_values(
                    |r: (u64, HttpResponseHeaders)| (r.0, response_view(r.1)),
                ).push((request_id, cv.1)));
                assert(all.take(k + 1) =~= all.take(k as int).push(all[k as int]));
                assert(responses_for(start.requests_by_stream, all.take(k + 1)) =~= responses_for(
                    start.requests_by_stream,
                    all.take(k as int),
                ).push((start.requests_by_stream[cv.0], cv.1)));
                assert(self@.ready =~= start.ready + responses_for(
                    start.requests_by_stream,
                    all.take(k + 1),
                ));
            }
            k = k + 1;
        }
        proof {
            assert(all.take(k as int) =~= all);
        }
    }

    /// Dequeues the oldest complete response, with the Tokio request id that it answers.
    pub fn get_next_response_frame(&mut self) -> (next: Option<(u64, HttpResponseHeaders)>)
        requires
            old(self)@.wf(),
        ensures
            final(self)@.wf(),
            old(self)@.ready.len() == 0 ==> next is None && final(self)@ == old(self)@,
            old(self)@.ready.len() > 0 ==> {
                &&& next is Some
                &&& (next.unwrap().0, response_view(next.unwrap().1)) == old(self)@.ready[0]
                &&& final(self)@ == (TransportView { ready: old(self)@.ready.drop_first(), ..old(self)@ })
            },
    {
        if self.ready_responses.len() > 0 {
            let first = self.ready_responses.remove(0);
            proof {
                assert(self@.ready =~= old(self)@.ready.drop_first());
            }
            Some(first)
        } else {
            None
        }
    }

    /// Whether any of the streams still has request data to send, given for each stream whether
    /// it is closed on the local end.
    pub fn has_pending_request_data(closed_local: &[bool]) -> (pending: bool)
        ensures
            pending == exists|i: int| 0 <= i < closed_local@.len() && !closed_local@[i],
    {
        let mut i: usize = 0;
        while i < closed_local.len()
            invariant
                i <= closed_local@.len(),
                forall|j: int| 0 <= j < i ==> closed_local@[j],
            decreases closed_local@.len() - i,
        {
            if !closed_local[i] {
                return true;
            }
            i = i + 1;
        }
        false
    }
}

/// A frame that Tokio hands to the transport.
pub enum SinkFrame {
    /// The start of a new request; `body` tells whether body chunks follow.
    Message { id: u64, message: HttpRequestHeaders, body: bool },
    /// A chunk of a request's body; `None` marks the end of the body.
    Body { id: u64, chunk: Option<HttpRequestBody> },
    /// An error frame for a request.
    Error { id: u64 },
}

/// What the HTTP/2 connection has to do for a frame that Tokio handed over.
pub enum StreamCommand {
    /// Start a request on a new stream with these headers; with `close_local`, the stream is
    /// closed on the local end right away, as no body follows.
    Start { stream_id: u32, headers: Vec<Header>, close_local: bool },
    /// Make `data` the outgoing data of the stream.
    SetData { stream_id: u32, data: Vec<u8> },
    /// Nothing to do.
    Nothing,
    /// No stream id is left for a new request.
    StreamIdsExhausted,
}

impl H2ClientTokioTransport {
    /// Handles a frame from Tokio: a new request is given the next stream, and a body chunk is
    /// directed at the stream of its request.
    ///
    /// A request whose message says that no body follows, or whose body was ended by a frame
    /// without a chunk, takes no further chunk: one gives `DataChunkAfterEndOfBody`, and the
    /// stream's data stays as it was. A body frame for a request without a stream gives
    /// `UnmatchedRequestId`. Currently, each request is assumed to carry its whole body in a
    /// single chunk.
    pub fn start_send(&mut self, item: SinkFrame) -> (command: Result<StreamCommand, Http2Error>)
        requires
            old(self)@.wf(),
        ensures
            final(self)@.wf(),
            match item {
                SinkFrame::Message { id, message, body } => if old(self)@.next_stream_id
                    <= MAX_STREAM_ID {
                    &&& final(self)@ == if body {
                        old(self)@.started(id)
                    } else {
                        old(self)@.started(id).body_ended(id)
                    }
                    &&& final(self)@.ready == old(self)@.ready
                    &&& final(self)@.ended_bodies == if body {
                        old(self)@.ended_bodies.remove(id)
                    } else {
                        old(self)@.ended_bodies.insert(id)
                    }
                    &&& command matches Ok(StreamCommand::Start { stream_id, headers, close_local })
                        && stream_id == old(self)@.next_stream_id && headers.deep_view()
                        == message@ && close_local == !body
                } else {
                    &&& final(self)@ == old(self)@
                    &&& command matches Ok(StreamCommand::StreamIdsExhausted)
                },
                SinkFrame::Body { id, chunk } => if !old(self)@.streams_by_request.contains_key(
                    id,
                ) {
                    &&& final(self)@ == old(self)@
                    &&& command matches Err(Http2Error::TokioSync(
                        TokioSyncError::UnmatchedRequestId,
                    ))
                } else if old(self)@.ended_bodies.contains(id) {
                    &&& final(self)@ == old(self)@
                    &&& match chunk {
                        Some(_) => command matches Err(Http2Error::TokioSync(
                            TokioSyncError::DataChunkAfterEndOfBody,
                        )),
                        None => command matches Ok(StreamCommand::Nothing),
                    }
                } else {
                    match chunk {
                        Some(b) => {
                            &&& final(self)@ == old(self)@
                            &&& command matches Ok(StreamCommand::SetData { stream_id, data })
                                && stream_id == old(self)@.streams_by_request[id] && data@ == b@
                        },
                        None => {
                            &&& final(self)@ == old(self)@.body_ended(id)
                            &&& final(self)@.ended_bodies == old(self)@.ended_bodies.insert(id)
                            &&& final(self)@.requests_by_stream == old(self)@.requests_by_stream
                            &&& final(self)@.streams_by_request == old(self)@.streams_by_request
                            &&& final(self)@.ready == old(self)@.ready
                            &&& command matches Ok(StreamCommand::Nothing)
                        },
                    }
                },
                SinkFrame::Error { .. } => final(self)@ == old(self)@ && command matches Ok(
                    StreamCommand::Nothing,
                ),
            },
    {
        match item {
            SinkFrame::Message { id, message, body: has_body } => {
                match self.start_request(id) {
                    Some(stream_id) => {
                        if !has_body {
                            self.ended_bodies.insert(id);
                        }
                        Ok(
                            StreamCommand::Start {
                                stream_id,
                                headers: message.into_headers(),
                                close_local: !has_body,
                            },
                        )
                    },
                    None => Ok(StreamCommand::StreamIdsExhausted),
                }
            },
            SinkFrame::Body { id, chunk } => {
                match self.stream_for_request(id) {
                    None => Err(Http2Error::TokioSync(TokioSyncError::UnmatchedRequestId)),
                    Some(stream_id) => {
                        let ended = self.ended_bodies.contains(&id);
                        match chunk {
                            Some(body) => {
                                if ended {
                                    Err(
                                        Http2Error::TokioSync(
                                            TokioSyncError::DataChunkAfterEndOfBody,
                                        ),
                                    )
                                } else {
                                    Ok(StreamCommand::SetData { stream_id, data: body.into_body() })
                                }
                            },
                            None => {
                                if !ended {
                                    self.ended_bodies.insert(id);
                                    assert(self@ =~= old(self)@.body_ended(id));
                                }
                                Ok(StreamCommand::Nothing)
                            },
                        }
                    },
                }
            },
            SinkFrame::Error { .. } => Ok(StreamCommand::Nothing),
        }
    }
}

/// An event handed to `H2ClientTokioTransport::poll_complete`.
#[derive(Clone, Copy, Debug, PartialEq, Eq, Structural)]
pub enum FlushEvent {
    /// Flushing the frames queued so far finished; `all_written` tells whether it went through
    /// without blocking.
    Flushed { all_written: bool },
    /// It was checked whether any stream still has request data to send.
    PendingChecked { pending: bool },
    /// The connection was asked to queue up the next DATA frame; `queued` tells whether it had
    /// any data ready.
    DataQueued { queued: bool },
    /// Flushing the new DATA frame finished; `all_written` tells whether it went through
    /// without blocking.
    DataFlushed { all_written: bool },
}

/// What `H2ClientTokioTransport::poll_complete` asks its caller to do next.
#[derive(Clone, Copy, Debug, PartialEq, Eq, Structural)]
pub enum FlushAction {
    /// Check whether any stream still has request data to send.
    CheckPending,
    /// Ask the connection to queue up the next DATA frame.
    QueueData,
    /// Flush the frames queued so far.
    FlushData,
    /// All requests are sent: report readiness.
    Ready,
    /// Not done yet; the socket wakes the task up again once it is writable.
    NotReady,
    /// Not done yet; schedule the task again right away, so that other work on the connection
    /// (settings, acks, new requests) is not starved by a long request body.
    YieldThenNotReady,
}

impl H2ClientTokioTransport {
    /// One step of flushing: after the queued frames are flushed, keeps pushing out request body
    /// data, one DATA frame at a time.
    pub fn poll_complete(event: FlushEvent) -> (action: FlushAction)
        ensures
            action == match event {
                FlushEvent::Flushed { all_written } => if all_written {
                    FlushAction::CheckPending
                } else {
                    FlushAction::NotReady
                },
                FlushEvent::PendingChecked { pending } => if pending {
                    FlushAction::QueueData
                } else {
                    FlushAction::Ready
                },
                FlushEvent::DataQueued { queued } => if queued {
                    FlushAction::FlushData
                } else {
                    FlushAction::Ready
                },
                FlushEvent::DataFlushed { all_written } => if all_written {
                    FlushAction::YieldThenNotReady
                } else {
                    FlushAction::NotReady
                },
            },
    {
        match event {
            FlushEvent::Flushed { all_written } => {
                // Only once everything queued so far went out is more request data prepared.
                if all_written {
                    FlushAction::CheckPending
                } else {
                    FlushAction::NotReady
                }
            },
            FlushEvent::PendingChecked { pending } => {
                // No more pending request data: all requests are sent.
                if pending {
                    FlushAction::QueueData
                } else {
                    FlushAction::Ready
                }
            },
            FlushEvent::DataQueued { queued } => {
                // No data ready although streams are open: everything that passed through
                // `start_send` has been written; more comes through `start_send`.
                if queued {
                    FlushAction::FlushData
                } else {
                    FlushAction::Ready
                }
            },
            FlushEvent::DataFlushed { all_written } => {
                if all_written {
                    FlushAction::YieldThenNotReady
                } else {
                    FlushAction::NotReady
                }
            },
        }
    }
}

/// The client preface: the 24 octets `PRI * HTTP/2.0\r\n\r\nSM\r\n\r\n`, followed by a
/// SETTINGS frame that disables server push (`SETTINGS_ENABLE_PUSH` = 0).
pub open spec fn client_preface_bytes() -> Seq<u8> {
    seq![
        80u8, 82u8, 73u8, 32u8, 42u8, 32u8, 72u8, 84u8, 84u8, 80u8, 47u8, 50u8, 46u8, 48u8,
        13u8, 10u8, 13u8, 10u8, 83u8, 77u8, 13u8, 10u8, 13u8, 10u8,
    ] + seq![0u8, 0u8, 6u8, 4u8, 0u8, 0u8, 0u8, 0u8, 0u8, 0u8, 2u8, 0u8, 0u8, 0u8, 0u8]
}

/// Writes the client preface through solicit's `client::write_preface`, which is claimed to append
/// the 24 preface octets and a SETTINGS frame that sets `SETTINGS_ENABLE_PUSH` to 0, and to
/// succeed: it fails only when writing to its writer fails, and writing to a `Vec` appends to it,
/// growing it as needed.
#[verifier::external_body]
fn write_preface(buf: &mut Vec<u8>) -> (res: Result<(), std::io::Error>)
    ensures
        res is Ok,
        final(buf)@ == old(buf)@ + client_preface_bytes(),
{
    solicit::http::client::write_preface(buf)
}

/// Binds a raw connection to the HTTP/2 transport. For cleartext HTTP/2, the protocol starts
/// with the client preface, after which the HTTP/2 frames flow.
pub struct H2ClientTokioProto;

impl H2ClientTokioProto {
    /// The bytes to send before anything else on a new connection. Producing them in memory
    /// does not fail.
    pub fn client_preface(&self) -> (preface: Result<Vec<u8>, Http2Error>)
        ensures
            preface matches Ok(p) && p@ == client_preface_bytes(),
    {
        let mut buf: Vec<u8> = Vec::new();
        match write_preface(&mut buf) {
            Ok(()) => {
                assert(buf@ =~= client_preface_bytes());
                Ok(buf)
            },
            Err(e) => Err(Http2Error::from(e)),
        }
    }
}

} // verus!
