//! The engine's model of a request.

use vstd::prelude::*;

use crate::host;
use crate::text;

verus! {

/// A request as the rules are matched against it.
#[derive(Debug)]
pub struct Request {
    pub path_and_query: Option<String>,
    pub host: Option<String>,
    pub scheme: Option<String>,
    pub method: Option<String>,
    pub headers: Vec<(String, String)>,
    pub remote_addr: Option<String>,
    pub created_at: Option<String>,
    pub sampling_override: Option<bool>,
}

/// A request as plain data.
pub struct RequestView {
    pub path_and_query: Option<Seq<char>>,
    pub host: Option<Seq<char>>,
    pub scheme: Option<Seq<char>>,
    pub method: Option<Seq<char>>,
    pub headers: Seq<(Seq<char>, Seq<char>)>,
    pub remote_addr: Option<Seq<char>>,
    pub created_at: Option<Seq<char>>,
    pub sampling_override: Option<bool>,
}

impl View for Request {
    type V = RequestView;

    open spec fn view(&self) -> RequestView {
        RequestView {
            path_and_query: text::option_text(self.path_and_query),
            host: text::option_text(self.host),
            scheme: text::option_text(self.scheme),
            method: text::option_text(self.method),
            headers: host::header_texts(self.headers@),
            remote_addr: text::option_text(self.remote_addr),
            created_at: text::option_text(self.created_at),
            sampling_override: self.sampling_override,
        }
    }
}

/// A part of a request; one that is empty counts as not given.
pub open spec fn given(part: Seq<char>) -> Option<Seq<char>> {
    if part.len() == 0 {
        None
    } else {
        Some(part)
    }
}

/// The request that is built from its parts: the path and query and the
/// headers as they are, the others where they are given, and nothing said of
/// the client's address, the time or the sampling.
pub open spec fn request_of(
    host: Seq<char>,
    scheme: Seq<char>,
    method: Seq<char>,
    path_and_query: Seq<char>,
    headers: Seq<(Seq<char>, Seq<char>)>,
) -> RequestView {
    RequestView {
        path_and_query: Some(path_and_query),
        host: given(host),
        scheme: given(scheme),
        method: given(method),
        headers,
        remote_addr: None,
        created_at: None,
        sampling_override: None,
    }
}

fn copy_given(part: &str) -> (copy: Option<String>)
    ensures
        text::option_text(copy) == given(part@),
{
    if part.is_empty() {
        None
    } else {
        Some(part.to_owned())
    }
}

/// Build the engine's request model from request parts. `created_at` stays
/// None: the guest has no clock.
pub fn build_rio_request(
    host: &str,
    scheme: &str,
    method: &str,
    path_and_query: &str,
    headers: Vec<(String, String)>,
) -> (request: Request)
    ensures
        request@ == request_of(
            host@,
            scheme@,
            method@,
            path_and_query@,
            host::header_texts(headers@),
        ),
        request.path_and_query matches Some(p) && p@ == path_and_query@,
        request.host is Some <==> host@.len() > 0,
        request.host matches Some(h) ==> h@ == host@,
        request.scheme is Some <==> scheme@.len() > 0,
        request.scheme matches Some(s) ==> s@ == scheme@,
        request.method is Some <==> method@.len() > 0,
        request.method matches Some(m) ==> m@ == method@,
        request.headers@ == headers@,
        request.remote_addr is None,
        request.created_at is None,
        request.sampling_override is None,
{
    Request {
        path_and_query: Some(path_and_query.to_owned()),
        host: copy_given(host),
        scheme: copy_given(scheme),
        method: copy_given(method),
        headers,
        remote_addr: None,
        created_at: None,
        sampling_override: None,
    }
}

/// A request is evaluated as it came: its path and query, character for
/// character, its headers, and each other part that is not empty. Nothing else
/// is said of it.
pub proof fn law_request_keeps_its_parts(
    host: Seq<char>,
    scheme: Seq<char>,
    method: Seq<char>,
    path_and_query: Seq<char>,
    headers: Seq<(Seq<char>, Seq<char>)>,
)
    ensures
        ({
            let request = request_of(host, scheme, method, path_and_query, headers);
            &&& request.path_and_query == Some(path_and_query)
            &&& request.headers == headers
            &&& host.len() > 0 ==> request.host == Some(host)
            &&& host.len() == 0 ==> request.host is None
            &&& scheme.len() > 0 ==> request.scheme == Some(scheme)
            &&& scheme.len() == 0 ==> request.scheme is None
            &&& method.len() > 0 ==> request.method == Some(method)
            &&& method.len() == 0 ==> request.method is None
            &&& request.remote_addr is None
            &&& request.created_at is None
            &&& request.sampling_override is None
        }),
{
}

/// Requests that differ in any part that counts are told apart: no part is
/// folded into another, cut or rewritten.
pub proof fn law_request_tells_apart(
    a: (Seq<char>, Seq<char>, Seq<char>, Seq<char>, Seq<(Seq<char>, Seq<char>)>),
    b: (Seq<char>, Seq<char>, Seq<char>, Seq<char>, Seq<(Seq<char>, Seq<char>)>),
)
    requires
        request_of(a.0, a.1, a.2, a.3, a.4) == request_of(b.0, b.1, b.2, b.3, b.4),
    ensures
        a == b,
{
    assert(a.0 == b.0 && a.1 == b.1 && a.2 == b.2);
}

/// The parts of a request are read field by field.
pub proof fn law_request_view(request: Request)
    ensures
        request.path_and_query matches Some(p) ==> request@.path_and_query == Some(p@),
        request.path_and_query is None ==> request@.path_and_query is None,
        request.host matches Some(h) ==> request@.host == Some(h@),
        request.host is None ==> request@.host is None,
        request.scheme matches Some(s) ==> request@.scheme == Some(s@),
        request.scheme is None ==> request@.scheme is None,
        request.method matches Some(m) ==> request@.method == Some(m@),
        request.method is None ==> request@.method is None,
        request@.headers.len() == request.headers@.len(),
        forall|i: int|
            0 <= i < request.headers@.len() ==> #[trigger] request@.headers[i] == (
                request.headers@[i].0@,
                request.headers@[i].1@,
            ),
        request.created_at is None ==> request@.created_at is None,
        request.remote_addr is None ==> request@.remote_addr is None,
        request@.sampling_override == request.sampling_override,
{
}

} // verus!
