//! The HTTP/2 client: the request and response types, its errors, and the logic of building
//! requests (`client_wrapper`), of tracking them on the connection (`tokio_layer`) and of
//! accepting a negotiated TLS session (`tls`).
use solicit::http::{Header, HttpError};
use vstd::prelude::*;

pub mod client_wrapper;
pub mod tls;
pub mod tokio_layer;

pub use self::client_wrapper::H2Client;

verus! {

/// Makes `std::io::Error` known to Verus as an opaque type that errors carry through.
#[verifier::external_type_specification]
#[verifier::external_body]
pub struct ExIoError(std::io::Error);

/// Makes solicit's `HttpError` known to Verus as an opaque type that errors carry through.
#[verifier::external_type_specification]
#[verifier::external_body]
pub struct ExHttpError(solicit::http::HttpError);

/// An enum of errors that can arise due to the Tokio layer becoming out-of-sync from the http2
/// session state.
#[derive(Debug, Clone, Copy, PartialEq, Eq, Structural)]
pub enum TokioSyncError {
    /// An error that would arise if we got a data chunk from Tokio for a request whose body was
    /// previously marked as complete.
    DataChunkAfterEndOfBody,
    /// An error that would arise if we got a Tokio request with an ID that doesn't have a matching
    /// HTTP/2 stream, when one would be expected.
    UnmatchedRequestId,
}

impl TokioSyncError {
    /// A short description of the error.
    pub fn description(&self) -> (d: &'static str)
        ensures
            *self == TokioSyncError::DataChunkAfterEndOfBody ==> d@
                == "received a data chunk for a request previously marked complete"@,
            *self == TokioSyncError::UnmatchedRequestId ==> d@
                == "received a request id that doesn't have a matching h2 stream"@,
    {
        match self {
            TokioSyncError::DataChunkAfterEndOfBody =>
                "received a data chunk for a request previously marked complete",
            TokioSyncError::UnmatchedRequestId =>
                "received a request id that doesn't have a matching h2 stream",
        }
    }
}

/// An enum of errors that can be raised by the http/2 Transport/Protocol.
#[derive(Debug)]
pub enum Http2Error {
    /// An http/2 protocol error
    Protocol(HttpError),
    /// An IO error (except WouldBlock)
    IoError(std::io::Error),
    /// Errors due to Tokio and the Transport going out of sync.
    TokioSync(TokioSyncError),
}

impl Http2Error {
    /// The name of the variant, as the error's message shows it.
    pub fn kind_name(&self) -> (n: &'static str)
        ensures
            self is Protocol ==> n@ == "Protocol"@,
            self is IoError ==> n@ == "IoError"@,
            self is TokioSync ==> n@ == "TokioSync"@,
    {
        match self {
            Http2Error::Protocol(_) => "Protocol",
            Http2Error::IoError(_) => "IoError",
            Http2Error::TokioSync(_) => "TokioSync",
        }
    }
}

impl From<HttpError> for Http2Error {
    fn from(err: HttpError) -> (e: Http2Error) {
        Http2Error::Protocol(err)
    }
}

impl vstd::std_specs::convert::FromSpecImpl<HttpError> for Http2Error {
    open spec fn obeys_from_spec() -> bool {
        true
    }

    open spec fn from_spec(err: HttpError) -> Http2Error {
        Http2Error::Protocol(err)
    }
}

impl From<std::io::Error> for Http2Error {
    fn from(err: std::io::Error) -> (e: Http2Error) {
        Http2Error::IoError(err)
    }
}

impl vstd::std_specs::convert::FromSpecImpl<std::io::Error> for Http2Error {
    open spec fn obeys_from_spec() -> bool {
        true
    }

    open spec fn from_spec(err: std::io::Error) -> Http2Error {
        Http2Error::IoError(err)
    }
}

/// A struct representing the headers used to start a new HTTP request.
///
/// Theoretically, this same struct could be used regardless whether the underlying protocol is
/// h2 or h11.
#[derive(Debug)]
pub struct HttpRequestHeaders {
    headers: Vec<Header>,
}

impl View for HttpRequestHeaders {
    type V = Seq<(Seq<u8>, Seq<u8>)>;

    closed spec fn view(&self) -> Seq<(Seq<u8>, Seq<u8>)> {
        self.headers.deep_view()
    }
}

impl HttpRequestHeaders {
    /// Request headers with no header in them.
    pub fn new() -> (h: HttpRequestHeaders)
        ensures
            h@ == Seq::<(Seq<u8>, Seq<u8>)>::empty(),
    {
        let h = HttpRequestHeaders { headers: Vec::new() };
        assert(h@ =~= Seq::<(Seq<u8>, Seq<u8>)>::empty());
        h
    }

    /// Request headers made of the given headers, in the given order.
    pub fn with_headers(headers: Vec<Header>) -> (h: HttpRequestHeaders)
        ensures
            h@ == headers.deep_view(),
    {
        HttpRequestHeaders { headers }
    }

    /// Takes the headers out.
    pub fn into_headers(self) -> (headers: Vec<Header>)
        ensures
            headers.deep_view() == self@,
    {
        self.headers
    }
}

/// Represents a chunk of the body of an HTTP request.
///
/// Currently requires the chunk to be owned.
#[derive(Debug)]
pub struct HttpRequestBody {
    body: Vec<u8>,
}

impl View for HttpRequestBody {
    type V = Seq<u8>;

    closed spec fn view(&self) -> Seq<u8> {
        self.body@
    }
}

impl HttpRequestBody {
    /// Create a new `HttpRequestBody` that will contain the bytes in the given `Vec`.
    pub fn new(body: Vec<u8>) -> (b: HttpRequestBody)
        ensures
            b@ == body@,
    {
        HttpRequestBody { body }
    }

    /// Takes the bytes out.
    pub fn into_body(self) -> (body: Vec<u8>)
        ensures
            body@ == self@,
    {
        self.body
    }
}

/// The response to an HTTP request.
///
/// Carries the response headers and, as responses are only handed over once they are complete,
/// the full body.
#[derive(Debug)]
pub struct HttpResponseHeaders {
    pub headers: Vec<Header>,
    pub body: Vec<u8>,
}

/// A chunk of the response body.
#[derive(Debug)]
pub struct HttpResponseBody {
    pub body: Vec<u8>,
}

impl HttpResponseBody {
    /// Appends the bytes of this chunk to the body collected so far.
    pub fn append_to(self, collected: &mut Vec<u8>)
        ensures
            final(collected)@ == old(collected)@ + self.body@,
    {
        let mut body = self.body;
        collected.append(&mut body);
    }
}

/// The full response, including both all the headers (including pseudo-headers) and the full body.
#[derive(Debug)]
pub struct HttpResponse {
    pub headers: Vec<Header>,
    pub body: Vec<u8>,
}

} // verus!
