//! The requests that providers are asked with.

use vstd::prelude::*;
use vstd::string::*;

verus! {

/// A GET request.
#[derive(Debug, PartialEq)]
pub struct HttpRequest {
    pub uri: String,
    pub headers: Vec<(String, String)>,
    /// Whether the body of a reply that reports success is read too.
    pub body_on_success: bool,
}

/// The mathematical counterpart of [`HttpRequest`].
#[verifier::ext_equal]
pub struct HttpRequestView {
    pub uri: Seq<char>,
    pub headers: Seq<(Seq<char>, Seq<char>)>,
    pub body_on_success: bool,
}

pub open spec fn headers_view(headers: Seq<(String, String)>) -> Seq<(Seq<char>, Seq<char>)> {
    headers.map_values(|h: (String, String)| (h.0@, h.1@))
}

impl View for HttpRequest {
    type V = HttpRequestView;

    open spec fn view(&self) -> HttpRequestView {
        HttpRequestView {
            uri: self.uri@,
            headers: headers_view(self.headers@),
            body_on_success: self.body_on_success,
        }
    }
}

/// The header by which a key is presented as a bearer token.
pub open spec fn bearer_header(key: Seq<char>) -> (Seq<char>, Seq<char>) {
    ("Authorization"@, "Bearer "@ + key)
}

/// A request that presents a key as a bearer token and reads the whole reply.
pub open spec fn spec_bearer_request(uri: Seq<char>, key: Seq<char>) -> HttpRequestView {
    HttpRequestView { uri, headers: seq![bearer_header(key)], body_on_success: true }
}

/// A key as the value of the header that presents it.
pub fn write_bearer(key: &String) -> (value: String)
    ensures
        value@ == "Bearer "@ + key@,
{
    let mut value = "Bearer ".to_owned();
    value.append(key.as_str());
    value
}

pub fn bearer_request(uri: String, key: &String) -> (request: HttpRequest)
    ensures
        request@ == spec_bearer_request(uri@, key@),
{
    let mut headers: Vec<(String, String)> = Vec::new();
    headers.push(("Authorization".to_owned(), write_bearer(key)));
    let request = HttpRequest { uri, headers, body_on_success: true };
    assert(request@.headers =~= seq![bearer_header(key@)]);
    request
}

/// A request stands for what its fields hold.
pub proof fn requests_stand_for_their_fields(request: HttpRequest)
    ensures
        request@.uri == request.uri@,
        request@.body_on_success == request.body_on_success,
        request@.headers.len() == request.headers@.len(),
        forall|i: int|
            0 <= i < request.headers@.len() ==> #[trigger] request@.headers[i] == (
                request.headers@[i].0@,
                request.headers@[i].1@,
            ),
{
}

} // verus!
