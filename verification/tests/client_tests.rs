use tokio_solicit::client::client_wrapper::RequestMessage;
use tokio_solicit::client::tls::negotiated_h2;
use tokio_solicit::client::tokio_layer::{
    ClosedStream, FlushAction, FlushEvent, H2ClientTokioProto, H2ClientTokioTransport, SinkFrame,
    StreamCommand,
};
use tokio_solicit::client::{
    H2Client, Http2Error, HttpRequestBody, HttpRequestHeaders, HttpResponseBody, TokioSyncError,
};

fn header(k: &[u8], v: &[u8]) -> (Vec<u8>, Vec<u8>) {
    (k.to_vec(), v.to_vec())
}

fn headers_of(msg: RequestMessage) -> (Vec<(Vec<u8>, Vec<u8>)>, Option<Vec<u8>>) {
    match msg {
        RequestMessage::WithoutBody(h) => (h.into_headers(), None),
        RequestMessage::WithBody(h, b) => (h.into_headers(), Some(b.into_body())),
    }
}

#[test]
fn get_request_carries_pseudo_headers() {
    let client = H2Client::new(b"example.com".to_vec());
    let (headers, body) = headers_of(client.get(b"/get"));
    assert_eq!(
        headers,
        vec![
            header(b":method", b"GET"),
            header(b":path", b"/get"),
            header(b":authority", b"example.com"),
            header(b":scheme", b"http"),
        ]
    );
    assert_eq!(body, None);
}

#[test]
fn post_request_carries_body() {
    let client = H2Client::new(b"localhost".to_vec());
    let (headers, body) = headers_of(client.post(b"/post", b"Hello, world!".to_vec()));
    assert_eq!(headers[0], header(b":method", b"POST"));
    assert_eq!(headers[1], header(b":path", b"/post"));
    assert_eq!(headers[2], header(b":authority", b"localhost"));
    assert_eq!(headers[3], header(b":scheme", b"http"));
    assert_eq!(headers.len(), 4);
    assert_eq!(body, Some(b"Hello, world!".to_vec()));
}

#[test]
fn request_appends_user_headers_in_order() {
    let client = H2Client::new(b"h".to_vec());
    let user = vec![header(b"x-a", b"1"), header(b"x-b", b"2")];
    let (headers, body) = headers_of(client.request(b"PUT", b"/p", user, Some(vec![1, 2])));
    assert_eq!(
        headers,
        vec![
            header(b":method", b"PUT"),
            header(b":path", b"/p"),
            header(b":authority", b"h"),
            header(b":scheme", b"http"),
            header(b"x-a", b"1"),
            header(b"x-b", b"2"),
        ]
    );
    assert_eq!(body, Some(vec![1, 2]));
    assert_eq!(client.authority(), b"h");
}

#[test]
fn request_types_keep_their_contents() {
    assert!(HttpRequestHeaders::new().into_headers().is_empty());
    let h = HttpRequestHeaders::with_headers(vec![header(b"a", b"b")]);
    assert_eq!(h.into_headers(), vec![header(b"a", b"b")]);
    assert_eq!(HttpRequestBody::new(vec![3, 4]).into_body(), vec![3, 4]);
}

#[test]
fn response_chunks_accumulate_in_order() {
    let mut body = Vec::new();
    HttpResponseBody { body: vec![1, 2] }.append_to(&mut body);
    HttpResponseBody { body: vec![] }.append_to(&mut body);
    HttpResponseBody { body: vec![3] }.append_to(&mut body);
    assert_eq!(body, vec![1, 2, 3]);
}

#[test]
fn alpn_accepts_only_h2() {
    assert!(negotiated_h2(Some(b"h2")));
    assert!(!negotiated_h2(Some(b"http/1.1")));
    assert!(!negotiated_h2(Some(b"h2-16")));
    assert!(!negotiated_h2(Some(b"")));
    assert!(!negotiated_h2(None));
}

#[test]
fn sync_error_descriptions() {
    assert_eq!(
        TokioSyncError::DataChunkAfterEndOfBody.description(),
        "received a data chunk for a request previously marked complete"
    );
    assert_eq!(
        TokioSyncError::UnmatchedRequestId.description(),
        "received a request id that doesn't have a matching h2 stream"
    );
}

#[test]
fn http2_error_conversions() {
    let e = Http2Error::from(solicit::http::HttpError::InvalidFrame);
    assert_eq!(e.kind_name(), "Protocol");
    let e = Http2Error::from(std::io::Error::from(std::io::ErrorKind::BrokenPipe));
    assert_eq!(e.kind_name(), "IoError");
    match e {
        Http2Error::IoError(inner) => assert_eq!(inner.kind(), std::io::ErrorKind::BrokenPipe),
        _ => panic!("expected an IoError"),
    }
    let e = Http2Error::TokioSync(TokioSyncError::UnmatchedRequestId);
    assert_eq!(e.kind_name(), "TokioSync");
}

#[test]
fn client_preface_bytes() {
    let preface = H2ClientTokioProto.client_preface().expect("in-memory write");
    let mut expected = b"PRI * HTTP/2.0\r\n\r\nSM\r\n\r\n".to_vec();
    expected.extend_from_slice(&[0, 0, 6, 4, 0, 0, 0, 0, 0, 0, 2, 0, 0, 0, 0]);
    assert_eq!(preface, expected);
}

#[test]
fn requests_get_odd_increasing_streams() {
    let mut t = H2ClientTokioTransport::new();
    assert_eq!(t.start_request(100), Some(1));
    assert_eq!(t.start_request(200), Some(3));
    assert_eq!(t.start_request(300), Some(5));
    assert_eq!(t.stream_for_request(200), Some(3));
    assert_eq!(t.request_for_stream(5), Some(300));
    assert_eq!(t.stream_for_request(400), None);
    assert_eq!(t.request_for_stream(2), None);
}

#[test]
fn closed_streams_become_responses_in_order() {
    let mut t = H2ClientTokioTransport::new();
    let s1 = t.start_request(10).unwrap();
    let s2 = t.start_request(20).unwrap();
    assert!(t.get_next_response_frame().is_none());
    t.handle_closed_streams(vec![
        ClosedStream { stream_id: s2, headers: vec![header(b":status", b"404")], body: vec![] },
        ClosedStream { stream_id: s1, headers: vec![header(b":status", b"200")], body: vec![1, 2] },
    ]);
    let (id, resp) = t.get_next_response_frame().unwrap();
    assert_eq!(id, 20);
    assert_eq!(resp.headers, vec![header(b":status", b"404")]);
    assert!(resp.body.is_empty());
    let (id, resp) = t.get_next_response_frame().unwrap();
    assert_eq!(id, 10);
    assert_eq!(resp.headers, vec![header(b":status", b"200")]);
    assert_eq!(resp.body, vec![1, 2]);
    assert!(t.get_next_response_frame().is_none());
}

#[test]
fn pending_request_data() {
    assert!(!H2ClientTokioTransport::has_pending_request_data(&[]));
    assert!(!H2ClientTokioTransport::has_pending_request_data(&[true, true]));
    assert!(H2ClientTokioTransport::has_pending_request_data(&[true, false]));
}

#[test]
fn flushing_decisions() {
    let step = H2ClientTokioTransport::poll_complete;
    assert_eq!(step(FlushEvent::Flushed { all_written: false }), FlushAction::NotReady);
    assert_eq!(step(FlushEvent::Flushed { all_written: true }), FlushAction::CheckPending);
    assert_eq!(step(FlushEvent::PendingChecked { pending: false }), FlushAction::Ready);
    assert_eq!(step(FlushEvent::PendingChecked { pending: true }), FlushAction::QueueData);
    assert_eq!(step(FlushEvent::DataQueued { queued: false }), FlushAction::Ready);
    assert_eq!(step(FlushEvent::DataQueued { queued: true }), FlushAction::FlushData);
    assert_eq!(step(FlushEvent::DataFlushed { all_written: true }), FlushAction::YieldThenNotReady);
    assert_eq!(step(FlushEvent::DataFlushed { all_written: false }), FlushAction::NotReady);
}

#[test]
fn frames_from_tokio_become_stream_commands() {
    let mut t = H2ClientTokioTransport::new();
    let headers = HttpRequestHeaders::with_headers(vec![header(b":method", b"GET")]);
    match t.start_send(SinkFrame::Message { id: 5, message: headers, body: false }) {
        Ok(StreamCommand::Start { stream_id, headers, close_local }) => {
            assert_eq!(stream_id, 1);
            assert_eq!(headers, vec![header(b":method", b"GET")]);
            assert!(close_local);
        }
        _ => panic!("expected a new stream"),
    }
    let headers = HttpRequestHeaders::new();
    match t.start_send(SinkFrame::Message { id: 6, message: headers, body: true }) {
        Ok(StreamCommand::Start { stream_id, close_local, .. }) => {
            assert_eq!(stream_id, 3);
            assert!(!close_local);
        }
        _ => panic!("expected a new stream"),
    }
    match t.start_send(SinkFrame::Body { id: 6, chunk: Some(HttpRequestBody::new(vec![9, 9])) }) {
        Ok(StreamCommand::SetData { stream_id, data }) => {
            assert_eq!(stream_id, 3);
            assert_eq!(data, vec![9, 9]);
        }
        _ => panic!("expected data for stream 3"),
    }
    assert!(matches!(
        t.start_send(SinkFrame::Body { id: 6, chunk: None }),
        Ok(StreamCommand::Nothing)
    ));
    assert!(matches!(t.start_send(SinkFrame::Error { id: 5 }), Ok(StreamCommand::Nothing)));
    assert_eq!(t.request_for_stream(3), Some(6));
}

#[test]
fn body_chunk_for_unknown_request_is_unmatched() {
    let mut t = H2ClientTokioTransport::new();
    assert!(matches!(
        t.start_send(SinkFrame::Body { id: 99, chunk: None }),
        Err(Http2Error::TokioSync(TokioSyncError::UnmatchedRequestId))
    ));
    assert!(matches!(
        t.start_send(SinkFrame::Body { id: 99, chunk: Some(HttpRequestBody::new(vec![1])) }),
        Err(Http2Error::TokioSync(TokioSyncError::UnmatchedRequestId))
    ));
    assert_eq!(t.stream_for_request(99), None);
}

#[test]
fn body_chunk_after_end_of_body_is_refused() {
    let mut t = H2ClientTokioTransport::new();
    let headers = HttpRequestHeaders::new();
    assert!(t.start_send(SinkFrame::Message { id: 7, message: headers, body: true }).is_ok());
    // The body ends without a chunk.
    assert!(matches!(
        t.start_send(SinkFrame::Body { id: 7, chunk: None }),
        Ok(StreamCommand::Nothing)
    ));
    // A later chunk is an error and sets no data.
    assert!(matches!(
        t.start_send(SinkFrame::Body { id: 7, chunk: Some(HttpRequestBody::new(vec![1, 2])) }),
        Err(Http2Error::TokioSync(TokioSyncError::DataChunkAfterEndOfBody))
    ));
    // A request that announced no body takes no chunk either.
    let headers = HttpRequestHeaders::new();
    assert!(t.start_send(SinkFrame::Message { id: 8, message: headers, body: false }).is_ok());
    assert!(matches!(
        t.start_send(SinkFrame::Body { id: 8, chunk: Some(HttpRequestBody::new(vec![3])) }),
        Err(Http2Error::TokioSync(TokioSyncError::DataChunkAfterEndOfBody))
    ));
    assert_eq!(t.stream_for_request(7), Some(1));
    assert_eq!(t.stream_for_request(8), Some(3));
}

#[test]
fn reused_request_id_keeps_the_old_stream_known() {
    let mut t = H2ClientTokioTransport::new();
    assert_eq!(t.start_request(4), Some(1));
    assert_eq!(t.start_request(4), Some(3));
    assert_eq!(t.stream_for_request(4), Some(3));
    assert_eq!(t.request_for_stream(3), Some(4));
    // The earlier stream still delivers its response to the request.
    assert_eq!(t.request_for_stream(1), Some(4));
}
