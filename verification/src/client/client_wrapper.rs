//! The requests that the `H2Client` issues: the pseudo-headers that start each of them, the
//! headers that the caller adds, and the optional body.
use super::{HttpRequestBody, HttpRequestHeaders};
use solicit::http::Header;
use vstd::prelude::*;

verus! {

/// `:method`
pub open spec fn method_key() -> Seq<u8> {
    seq![58u8, 109u8, 101u8, 116u8, 104u8, 111u8, 100u8]
}

/// `:path`
pub open spec fn path_key() -> Seq<u8> {
    seq![58u8, 112u8, 97u8, 116u8, 104u8]
}

/// `:authority`
pub open spec fn authority_key() -> Seq<u8> {
    seq![58u8, 97u8, 117u8, 116u8, 104u8, 111u8, 114u8, 105u8, 116u8, 121u8]
}

/// `:scheme`
pub open spec fn scheme_key() -> Seq<u8> {
    seq![58u8, 115u8, 99u8, 104u8, 101u8, 109u8, 101u8]
}

/// `http`
pub open spec fn http_scheme() -> Seq<u8> {
    seq![104u8, 116u8, 116u8, 112u8]
}

/// `GET`
pub open spec fn get_method() -> Seq<u8> {
    seq![71u8, 69u8, 84u8]
}

/// `POST`
pub open spec fn post_method() -> Seq<u8> {
    seq![80u8, 79u8, 83u8, 84u8]
}

/// The headers of a request: the four pseudo-headers `:method`, `:path`, `:authority` and
/// `:scheme` (always `http`), in this order, followed by the caller's own headers.
pub open spec fn request_headers(
    method: Seq<u8>,
    path: Seq<u8>,
    authority: Seq<u8>,
    user_headers: Seq<(Seq<u8>, Seq<u8>)>,
) -> Seq<(Seq<u8>, Seq<u8>)> {
    seq![
        (method_key(), method),
        (path_key(), path),
        (authority_key(), authority),
        (scheme_key(), http_scheme()),
    ] + user_headers
}

fn method_key_bytes() -> (v: Vec<u8>)
    ensures
        v@ == method_key(),
{
    let v = vec![58u8, 109u8, 101u8, 116u8, 104u8, 111u8, 100u8];
    assert(v@ =~= method_key());
    v
}

fn path_key_bytes() -> (v: Vec<u8>)
    ensures
        v@ == path_key(),
{
    let v = vec![58u8, 112u8, 97u8, 116u8, 104u8];
    assert(v@ =~= path_key());
    v
}

fn authority_key_bytes() -> (v: Vec<u8>)
    ensures
        v@ == authority_key(),
{
    let v = vec![58u8, 97u8, 117u8, 116u8, 104u8, 111u8, 114u8, 105u8, 116u8, 121u8];
    assert(v@ =~= authority_key());
    v
}

fn scheme_key_bytes() -> (v: Vec<u8>)
    ensures
        v@ == scheme_key(),
{
    let v = vec![58u8, 115u8, 99u8, 104u8, 101u8, 109u8, 101u8];
    assert(v@ =~= scheme_key());
    v
}

fn http_scheme_bytes() -> (v: Vec<u8>)
    ensures
        v@ == http_scheme(),
{
    let v = vec![104u8, 116u8, 116u8, 112u8];
    assert(v@ =~= http_scheme());
    v
}

/// Every request starts with the four pseudo-headers, in the order `:method`, `:path`,
/// `:authority`, `:scheme`, and then carries the caller's headers unchanged and in their order.
pub proof fn lemma_request_headers_layout(
    method: Seq<u8>,
    path: Seq<u8>,
    authority: Seq<u8>,
    user_headers: Seq<(Seq<u8>, Seq<u8>)>,
)
    ensures
        request_headers(method, path, authority, user_headers).len() == 4 + user_headers.len(),
        request_headers(method, path, authority, user_headers)[0] == (method_key(), method),
        request_headers(method, path, authority, user_headers)[1] == (path_key(), path),
        request_headers(method, path, authority, user_headers)[2] == (authority_key(), authority),
        request_headers(method, path, authority, user_headers)[3] == (scheme_key(), http_scheme()),
        forall|i: int|
            0 <= i < user_headers.len() ==> request_headers(method, path, authority, user_headers)[4
                + i] == user_headers[i],
{
}

/// The deep view of a header is the pair of its byte views.
proof fn lemma_header_deep_view(h: Header)
    ensures
        h.deep_view() == (h.0@, h.1@),
{
    assert(h.0.deep_view() =~= h.0@);
    assert(h.1.deep_view() =~= h.1@);
}

/// A request as it is handed to the connection: its headers, and its body if it has one.
#[derive(Debug)]
pub enum RequestMessage {
    WithoutBody(HttpRequestHeaders),
    WithBody(HttpRequestHeaders, HttpRequestBody),
}

impl View for RequestMessage {
    type V = (Seq<(Seq<u8>, Seq<u8>)>, Option<Seq<u8>>);

    open spec fn view(&self) -> (Seq<(Seq<u8>, Seq<u8>)>, Option<Seq<u8>>) {
        match self {
            RequestMessage::WithoutBody(h) => (h@, None),
            RequestMessage::WithBody(h, b) => (h@, Some(b@)),
        }
    }
}

/// The view of an optional body.
pub open spec fn body_view(body: Option<Vec<u8>>) -> Option<Seq<u8>> {
    match body {
        Some(b) => Some(b@),
        None => None,
    }
}

/// Builds the requests of an HTTP/2 client that talks to one authority (host name).
pub struct H2Client {
    /// The authority header (nee Host). Specifies the host name that the HTTP requests will
    /// be directed at. This is distinct from the socket address.
    authority: Vec<u8>,
}

impl View for H2Client {
    type V = Seq<u8>;

    closed spec fn view(&self) -> Seq<u8> {
        self.authority@
    }
}

impl H2Client {
    /// Creates a new `H2Client` whose requests are directed at the given authority.
    pub fn new(authority: Vec<u8>) -> (c: H2Client)
        ensures
            c@ == authority@,
    {
        H2Client { authority }
    }

    /// The authority that the requests are directed at.
    pub fn authority(&self) -> (a: &[u8])
        ensures
            a@ == self@,
    {
        self.authority.as_slice()
    }

    /// A GET request for the given path, without a body.
    pub fn get(&self, path: &[u8]) -> (r: RequestMessage)
        ensures
            r@ == (request_headers(get_method(), path@, self@, Seq::empty()), None::<Seq<u8>>),
    {
        let method = vec![71u8, 69u8, 84u8];
        assert(method@ =~= get_method());
        self.request(&method, path, Vec::new(), None)
    }

    /// A POST request for the given path, carrying the given body.
    pub fn post(&self, path: &[u8], body: Vec<u8>) -> (r: RequestMessage)
        ensures
            r@ == (request_headers(post_method(), path@, self@, Seq::empty()), Some(body@)),
    {
        let method = vec![80u8, 79u8, 83u8, 84u8];
        assert(method@ =~= post_method());
        self.request(&method, path, Vec::new(), Some(body))
    }

    /// A request with the given method, path, additional headers and optional body.
    pub fn request(
        &self,
        method: &[u8],
        path: &[u8],
        user_headers: Vec<Header>,
        body: Option<Vec<u8>>,
    ) -> (r: RequestMessage)
        ensures
            r@ == (request_headers(method@, path@, self@, user_headers.deep_view()), body_view(body)),
    {
        let h0: Header = (method_key_bytes(), vstd::slice::slice_to_vec(method));
        let h1: Header = (path_key_bytes(), vstd::slice::slice_to_vec(path));
        let h2: Header = (authority_key_bytes(), vstd::slice::slice_to_vec(self.authority.as_slice()));
        let h3: Header = (scheme_key_bytes(), http_scheme_bytes());
        proof {
            lemma_header_deep_view(h0);
            lemma_header_deep_view(h1);
            lemma_header_deep_view(h2);
            lemma_header_deep_view(h3);
        }
        let mut headers: Vec<Header> = Vec::new();
        headers.push(h0);
        headers.push(h1);
        headers.push(h2);
        headers.push(h3);
        let ghost pseudo = headers.deep_view();
        assert(pseudo[0] == h0.deep_view());
        assert(pseudo[1] == h1.deep_view());
        assert(pseudo[2] == h2.deep_view());
        assert(pseudo[3] == h3.deep_view());
        assert(pseudo =~= seq![
            (method_key(), method@),
            (path_key(), path@),
            (authority_key(), self@),
            (scheme_key(), http_scheme()),
        ]);
        let ghost user = user_headers.deep_view();
        let mut user_headers = user_headers;
        headers.append(&mut user_headers);
        assert(headers.deep_view() =~= pseudo + user);
        self.request_with_vec(headers, body)
    }

    /// Wraps the complete header list, and the body if there is one, into a request message.
    fn request_with_vec(&self, headers: Vec<Header>, body: Option<Vec<u8>>) -> (r: RequestMessage)
        ensures
            r@ == (headers.deep_view(), body_view(body)),
    {
        let request_headers = HttpRequestHeaders::with_headers(headers);
        match body {
            None => RequestMessage::WithoutBody(request_headers),
            Some(body) => RequestMessage::WithBody(request_headers, HttpRequestBody::new(body)),
        }
    }
}

} // verus!
