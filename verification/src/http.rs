//! HTTP as far as the websocket server speaks it: requests are parsed, and refused
//! ones answered in plain text.

use vstd::prelude::*;
use vstd::utf8::encode_utf8;

use crate::text::{all_digits, decimal, decimal_value, law_decimal_is_faithful, push_decimal};

verus! {

/// Number of header fields that a request may have.
pub const MAX_HEADERS: usize = 16;

/// Why `httparse` refused a request.
#[verifier::external_type_specification]
#[verifier::external_body]
pub struct ExHttpError(httparse::Error);

/// A request whose head was complete.
pub struct HttpRequest {
    /// Number of bytes of the head.
    pub consumed: usize,
    /// The request's target.
    pub path: Option<String>,
    /// The header fields, in order: name and value.
    pub headers: Vec<(String, Vec<u8>)>,
}

/// The names and values of header fields.
pub open spec fn headers_view(headers: Seq<(String, Vec<u8>)>) -> Seq<(Seq<char>, Seq<u8>)> {
    headers.map_values(|h: (String, Vec<u8>)| (h.0@, h.1@))
}

/// The text of a path.
pub open spec fn path_view(path: Option<String>) -> Option<Seq<char>> {
    match path {
        Some(p) => Some(p@),
        None => None,
    }
}

impl View for HttpRequest {
    type V = (nat, Option<Seq<char>>, Seq<(Seq<char>, Seq<u8>)>);

    open spec fn view(&self) -> (nat, Option<Seq<char>>, Seq<(Seq<char>, Seq<u8>)>) {
        (self.consumed as nat, path_view(self.path), headers_view(self.headers@))
    }
}

/// What parsing gave: an error, a complete request, or nothing yet.
pub open spec fn parse_view(r: Result<Option<HttpRequest>, httparse::Error>) -> Result<
    Option<(nat, Option<Seq<char>>, Seq<(Seq<char>, Seq<u8>)>)>,
    httparse::Error,
> {
    match r {
        Ok(Some(request)) => Ok(Some(request@)),
        Ok(None) => Ok(None),
        Err(e) => Err(e),
    }
}

/// What `httparse::Request::parse` makes of the bytes `buf` with room for `max_headers`
/// header fields: an error, the length of the head with the path and the header
/// fields, or nothing while the head is incomplete.
pub uninterp spec fn http_request(buf: Seq<u8>, max_headers: nat) -> Result<
    Option<(nat, Option<Seq<char>>, Seq<(Seq<char>, Seq<u8>)>)>,
    httparse::Error,
>;

/// Calls `httparse::Request::parse` with room for `N` header fields. The result is that
/// of `http_request`; a complete head lies within the bytes that were parsed.
#[verifier::external_body]
pub(crate) fn parse_request<const N: usize>(buf: &[u8]) -> (r: Result<
    Option<HttpRequest>,
    httparse::Error,
>)
    ensures
        parse_view(r) == http_request(buf@, N as nat),
        r matches Ok(Some(request)) ==> request.consumed <= buf@.len(),
{
    let mut fields = [httparse::EMPTY_HEADER; N];
    let mut request = httparse::Request::new(&mut fields);
    let status = request.parse(buf)?;
    let path = request.path.map(|p| p.to_string());
    let headers = request.headers.iter().map(|h| (h.name.to_string(), h.value.to_vec())).collect();
    Ok(match status {
        httparse::Status::Complete(consumed) => Some(HttpRequest { consumed, path, headers }),
        httparse::Status::Partial => None,
    })
}

/// The text of a plain-text response that closes the connection.
pub open spec fn response_text(status: nat, reason: Seq<char>, body: Seq<char>) -> Seq<char> {
    "HTTP/1.1 "@ + decimal(status) + " "@ + reason
        + "\r\nContent-Type: text/plain; charset=utf-8\r\nContent-Length: "@ + decimal(
        encode_utf8(body).len(),
    ) + "\r\nConnection: close\r\n\r\n"@ + body
}

/// A plain-text response that closes the connection. Its length field counts the bytes
/// of the body, not its characters.
pub fn simple_response(status: u16, reason: &str, body: &str) -> (r: String)
    ensures
        r@ == response_text(status as nat, reason@, body@),
{
    let mut out: String = String::from_str("HTTP/1.1 ");
    push_decimal(&mut out, status as u64);
    out.append(" ");
    out.append(reason);
    out.append("\r\nContent-Type: text/plain; charset=utf-8\r\nContent-Length: ");
    push_decimal(&mut out, body.as_bytes().len() as u64);
    out.append("\r\nConnection: close\r\n\r\n");
    out.append(body);
    out
}

/// What a receiver finds in a response: the status and the reason in the first line, that
/// the body is plain text, how many bytes it has, that the connection closes, and behind
/// an empty line the body whole. Both numbers are decimal.
pub proof fn law_response_tells_its_status_and_length(
    status: nat,
    reason: Seq<char>,
    body: Seq<char>,
)
    ensures
        exists|code: Seq<char>, len: Seq<char>|
            {
                &&& #[trigger] all_digits(code)
                &&& #[trigger] all_digits(len)
                &&& decimal_value(code) == status
                &&& decimal_value(len) == encode_utf8(body).len()
                &&& response_text(status, reason, body) == "HTTP/1.1 "@ + code + " "@ + reason
                    + "\r\nContent-Type: text/plain; charset=utf-8\r\nContent-Length: "@ + len
                    + "\r\nConnection: close\r\n\r\n"@ + body
            },
{
    law_decimal_is_faithful(status);
    law_decimal_is_faithful(encode_utf8(body).len());
    assert(all_digits(decimal(status)) && all_digits(decimal(encode_utf8(body).len())));
}

/// A request is looked at as it was parsed: its path, and each header field's name and
/// value, none left out.
pub proof fn law_requests_are_looked_at_whole(request: HttpRequest, path: String, i: int)
    requires
        0 <= i < request.headers@.len(),
    ensures
        path_view(Some(path)) == Some(path@),
        path_view(None) == None::<Seq<char>>,
        headers_view(request.headers@).len() == request.headers@.len(),
        headers_view(request.headers@)[i] == (request.headers@[i].0@, request.headers@[i].1@),
        request@ == (
            request.consumed as nat,
            path_view(request.path),
            headers_view(request.headers@),
        ),
        parse_view(Ok(Some(request))) == Ok::<
            Option<(nat, Option<Seq<char>>, Seq<(Seq<char>, Seq<u8>)>)>,
            httparse::Error,
        >(Some(request@)),
{
}

/// A request that is not complete, and one that is not HTTP, are looked at as such.
pub proof fn law_unparsed_requests_stay_unparsed(error: httparse::Error)
    ensures
        parse_view(Ok(None)) == Ok::<
            Option<(nat, Option<Seq<char>>, Seq<(Seq<char>, Seq<u8>)>)>,
            httparse::Error,
        >(None),
        parse_view(Err(error)) == Err::<
            Option<(nat, Option<Seq<char>>, Seq<(Seq<char>, Seq<u8>)>)>,
            httparse::Error,
        >(error),
{
}

} // verus!
