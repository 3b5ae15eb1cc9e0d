//! From the bytes that a client sends to the decision whether it gets a websocket.

use vstd::prelude::*;
use vstd::utf8::encode_utf8;

use crate::handshake::{
    any_unreadable, fields_fit, header_fits, read_http_header, wants_websocket, websocket_key,
    HeaderError, MAX_KEY_BYTES,
};
use crate::http::{
    http_request, parse_request, parse_view, path_view, response_text, simple_response,
    HttpRequest, MAX_HEADERS,
};

verus! {

/// Path that the audio stream is served under.
pub const WS_PATH: &'static str = "/audio";

/// Size of the buffer that a request is read into.
pub const READ_BUFFER_BYTES: usize = 4096;

/// Why a connection ended before its request was answered.
pub enum UpgradeError {
    /// The client closed the connection, or filled the buffer, before the head was
    /// complete.
    ConnectionClosed,
    /// The request is not HTTP.
    HttpParse(httparse::Error),
    /// A field of the handshake could not be read.
    InvalidHeader(HeaderError),
}

/// What to do about the bytes read so far. The cursor counts the bytes of the buffer
/// that are in use.
pub enum UpgradeStep {
    /// Read on behind the cursor.
    ReadMore { cursor: usize },
    /// Open a websocket for this key.
    Accept { key: String, path: String, cursor: usize },
    /// Send this response and close.
    Refuse { response: String, cursor: usize },
}

/// What a request comes to.
pub ghost enum UpgradeOutcome {
    /// The head is not complete yet.
    Incomplete,
    /// The request is not HTTP.
    NotHttp(httparse::Error),
    /// A field of the handshake could not be read.
    BadHeader(HeaderError),
    /// A websocket is opened: the key and the path.
    Accepted(Seq<char>, Seq<char>),
    /// The text of the response to a request that gets no websocket.
    Refused(Seq<char>),
}

/// The response to a request for a websocket under another path.
pub open spec fn wrong_path_response(path: Seq<char>) -> Seq<char> {
    response_text(
        404,
        "Not Found"@,
        "Expected websocket path "@ + WS_PATH@ + ", got "@ + path,
    )
}

/// The response to a request for a websocket under no path at all.
pub open spec fn missing_path_response() -> Seq<char> {
    response_text(400, "Bad Request"@, "Missing HTTP path"@)
}

/// The response to a request for the root: where to find the stream.
pub open spec fn root_response() -> Seq<char> {
    response_text(
        200,
        "OK"@,
        "Websocket audio stream available at ws://<device-ip>"@ + WS_PATH@ + "\n"@,
    )
}

/// The response to any other request.
pub open spec fn other_response() -> Seq<char> {
    response_text(404, "Not Found"@, "Use ws://<ip>/audio"@)
}

/// The response to a request that asks for no websocket.
pub open spec fn plain_response(path: Option<Seq<char>>) -> Seq<char> {
    if path == Some("/"@) {
        root_response()
    } else {
        other_response()
    }
}

/// What a request for `path` comes to; it asks for a websocket where there is a key.
pub open spec fn route_outcome(key: Option<Seq<char>>, path: Option<Seq<char>>) -> UpgradeOutcome {
    match (key, path) {
        (Some(k), Some(p)) => if p == WS_PATH@ {
            UpgradeOutcome::Accepted(k, p)
        } else {
            UpgradeOutcome::Refused(wrong_path_response(p))
        },
        (Some(_), None) => UpgradeOutcome::Refused(missing_path_response()),
        (None, p) => UpgradeOutcome::Refused(plain_response(p)),
    }
}

/// What the bytes come to that the HTTP parser made `parsed` of.
pub open spec fn upgrade_outcome(
    parsed: Result<
        Option<(nat, Option<Seq<char>>, Seq<(Seq<char>, Seq<u8>)>)>,
        httparse::Error,
    >,
) -> UpgradeOutcome {
    match parsed {
        Err(e) => UpgradeOutcome::NotHttp(e),
        Ok(None) => UpgradeOutcome::Incomplete,
        Ok(Some(request)) => if any_unreadable(request.2) {
            UpgradeOutcome::BadHeader(HeaderError::NotUtf8)
        } else if wants_websocket(request.2) {
            route_outcome(Some(websocket_key(request.2)), request.1)
        } else {
            route_outcome(None, request.1)
        },
    }
}

/// The handshake of the request that was parsed can be read without running out of room.
pub open spec fn request_fits(
    parsed: Result<
        Option<(nat, Option<Seq<char>>, Seq<(Seq<char>, Seq<u8>)>)>,
        httparse::Error,
    >,
) -> bool {
    parsed matches Ok(Some(request)) ==> fields_fit(request.2)
}

/// What a step decided.
pub open spec fn step_outcome(r: Result<UpgradeStep, UpgradeError>) -> Option<UpgradeOutcome> {
    match r {
        Ok(UpgradeStep::ReadMore { .. }) => Some(UpgradeOutcome::Incomplete),
        Ok(UpgradeStep::Accept { key, path, .. }) => Some(UpgradeOutcome::Accepted(key@, path@)),
        Ok(UpgradeStep::Refuse { response, .. }) => Some(UpgradeOutcome::Refused(response@)),
        Err(UpgradeError::HttpParse(e)) => Some(UpgradeOutcome::NotHttp(e)),
        Err(UpgradeError::InvalidHeader(e)) => Some(UpgradeOutcome::BadHeader(e)),
        Err(UpgradeError::ConnectionClosed) => None,
    }
}

/// Where a step leaves the cursor, if it goes on.
pub open spec fn step_cursor(step: UpgradeStep) -> usize {
    match step {
        UpgradeStep::ReadMore { cursor } => cursor,
        UpgradeStep::Accept { cursor, .. } => cursor,
        UpgradeStep::Refuse { cursor, .. } => cursor,
    }
}

/// The number of bytes in use once the head of a complete request is taken out.
pub open spec fn remaining(
    parsed: Result<
        Option<(nat, Option<Seq<char>>, Seq<(Seq<char>, Seq<u8>)>)>,
        httparse::Error,
    >,
    total: int,
) -> int {
    match parsed {
        Ok(Some(request)) => total - request.0,
        _ => total,
    }
}

/// `r` is the right answer when `n` bytes came in behind the `cursor` bytes of `buf` that
/// were in use: closed when there were none, else what the bytes in use come to.
pub open spec fn upgrade_result(
    r: Result<UpgradeStep, UpgradeError>,
    buf: Seq<u8>,
    cursor: int,
    n: int,
) -> bool {
    let parsed = http_request(buf.take(cursor + n), MAX_HEADERS as nat);
    &&& step_outcome(r) == (if n == 0 {
        None
    } else {
        Some(upgrade_outcome(parsed))
    })
    &&& r matches Ok(step) ==> step_cursor(step) == remaining(parsed, cursor + n)
    &&& r matches Ok(UpgradeStep::Accept { key, .. }) ==> encode_utf8(key@).len() <= MAX_KEY_BYTES
}

/// Whether a string is the other.
fn is_str(a: &String, b: &str) -> (r: bool)
    ensures
        r == (a@ == b@),
{
    *a == String::from_str(b)
}

/// Answers a request that asks for no websocket: the root tells where the stream is,
/// everything else is not found.
pub fn handle_non_websocket_request(path: &Option<String>) -> (response: String)
    ensures
        response@ == plain_response(path_view(*path)),
{
    match path {
        Some(p) => {
            if is_str(p, "/") {
                let mut body: String = String::from_str(
                    "Websocket audio stream available at ws://<device-ip>",
                );
                body.append(WS_PATH);
                body.append("\n");
                return simple_response(200, "OK", body.as_str());
            }
        },
        None => {},
    }
    simple_response(404, "Not Found", "Use ws://<ip>/audio")
}

/// Decides on a complete request. It asks for a websocket where there is a key.
pub fn route_request(key: Option<String>, path: Option<String>, cursor: usize) -> (r: UpgradeStep)
    ensures
        step_outcome(Ok(r)) == Some(
            route_outcome(
                match key {
                    Some(k) => Some(k@),
                    None => None,
                },
                path_view(path),
            ),
        ),
        step_cursor(r) == cursor,
{
    match key {
        Some(key) => {
            match path {
                Some(path) => {
                    if is_str(&path, WS_PATH) {
                        UpgradeStep::Accept { key, path, cursor }
                    } else {
                        let mut body: String = String::from_str("Expected websocket path ");
                        body.append(WS_PATH);
                        body.append(", got ");
                        body.append(path.as_str());
                        let response: String = simple_response(404, "Not Found", body.as_str());
                        UpgradeStep::Refuse { response, cursor }
                    }
                },
                None => {
                    let response: String = simple_response(
                        400,
                        "Bad Request",
                        "Missing HTTP path",
                    );
                    UpgradeStep::Refuse { response, cursor }
                },
            }
        },
        None => {
            let response: String = handle_non_websocket_request(&path);
            UpgradeStep::Refuse { response, cursor }
        },
    }
}

/// Decides on what the HTTP parser made of the first `total` bytes of the buffer.
pub fn answer_request(
    parsed: Result<Option<HttpRequest>, httparse::Error>,
    total: usize,
) -> (r: Result<UpgradeStep, UpgradeError>)
    requires
        request_fits(parse_view(parsed)),
        parsed matches Ok(Some(request)) ==> request.consumed <= total,
    ensures
        step_outcome(r) == Some(upgrade_outcome(parse_view(parsed))),
        r matches Ok(step) ==> step_cursor(step) == remaining(parse_view(parsed), total as int),
        r matches Ok(UpgradeStep::Accept { key, .. }) ==> encode_utf8(key@).len() <= MAX_KEY_BYTES,
{
    match parsed {
        Err(e) => Err(UpgradeError::HttpParse(e)),
        Ok(None) => Ok(UpgradeStep::ReadMore { cursor: total }),
        Ok(Some(request)) => {
            let cursor: usize = total - request.consumed;
            match read_http_header(&request.headers) {
                Err(e) => Err(UpgradeError::InvalidHeader(e)),
                Ok(key) => Ok(route_request(key, request.path, cursor)),
            }
        },
    }
}

/// Parses the first `total` bytes of a buffer.
fn parse_front(read_buf: &[u8], total: usize) -> (r: Result<Option<HttpRequest>, httparse::Error>)
    requires
        total <= read_buf@.len(),
    ensures
        parse_view(r) == http_request(read_buf@.take(total as int), MAX_HEADERS as nat),
        r matches Ok(Some(request)) ==> request.consumed <= total,
{
    assert(read_buf@.subrange(0, total as int) =~= read_buf@.take(total as int));
    parse_request::<MAX_HEADERS>(vstd::slice::slice_subrange(read_buf, 0, total))
}

/// Takes in `bytes_read` bytes behind the cursor and decides on the request so far.
/// Nothing read means that the connection is closed, or the buffer full. The request
/// is one whose handshake fits the room that there is for it.
pub fn read_websocket_upgrade(
    read_buf: &[u8],
    read_cursor: usize,
    bytes_read: usize,
) -> (r: Result<UpgradeStep, UpgradeError>)
    requires
        read_cursor + bytes_read <= read_buf@.len(),
        bytes_read != 0 ==> request_fits(
            http_request(read_buf@.take(read_cursor + bytes_read), MAX_HEADERS as nat),
        ),
    ensures
        upgrade_result(r, read_buf@, read_cursor as int, bytes_read as int),
{
    if bytes_read == 0 {
        return Err(UpgradeError::ConnectionClosed);
    }
    assert(read_buf.len() == read_buf@.len());
    let total: usize = read_cursor + bytes_read;
    answer_request(parse_front(read_buf, total), total)
}

/// Like `read_websocket_upgrade`, for any bytes: nothing comes back for a request whose
/// handshake does not fit the room that there is for it.
pub fn read_any_upgrade(read_buf: &[u8], read_cursor: usize, bytes_read: usize) -> (r: Option<
    Result<UpgradeStep, UpgradeError>,
>)
    requires
        read_cursor + bytes_read <= read_buf@.len(),
    ensures
        r is None <==> bytes_read != 0 && !request_fits(
            http_request(read_buf@.take(read_cursor + bytes_read), MAX_HEADERS as nat),
        ),
        r matches Some(result) ==> upgrade_result(
            result,
            read_buf@,
            read_cursor as int,
            bytes_read as int,
        ),
{
    if bytes_read != 0 {
        assert(read_buf.len() == read_buf@.len());
        match parse_front(read_buf, read_cursor + bytes_read) {
            Ok(Some(request)) => {
                if !header_fits(&request.headers) {
                    return None;
                }
            },
            Ok(None) => {},
            Err(_) => {},
        }
    }
    Some(read_websocket_upgrade(read_buf, read_cursor, bytes_read))
}

/// A websocket is opened exactly for a well-formed request that asks for one under the
/// path of the audio stream, with the key that the request brought.
pub proof fn law_websocket_only_for_the_stream(
    parsed: Result<
        Option<(nat, Option<Seq<char>>, Seq<(Seq<char>, Seq<u8>)>)>,
        httparse::Error,
    >,
    key: Seq<char>,
    path: Seq<char>,
)
    ensures
        upgrade_outcome(parsed) == UpgradeOutcome::Accepted(key, path) <==> {
            &&& parsed matches Ok(Some(request))
            &&& request.1 == Some(path)
            &&& path == WS_PATH@
            &&& !any_unreadable(request.2)
            &&& wants_websocket(request.2)
            &&& key == websocket_key(request.2)
        },
{
}

/// How a request was cut into reads does not matter: reads that leave the same bytes in
/// use come to the same.
pub proof fn law_reads_may_be_split(
    r1: Result<UpgradeStep, UpgradeError>,
    buf1: Seq<u8>,
    cursor1: int,
    n1: int,
    r2: Result<UpgradeStep, UpgradeError>,
    buf2: Seq<u8>,
    cursor2: int,
    n2: int,
)
    requires
        upgrade_result(r1, buf1, cursor1, n1),
        upgrade_result(r2, buf2, cursor2, n2),
        0 <= cursor1 && 0 < n1 && cursor1 + n1 <= buf1.len(),
        0 <= cursor2 && 0 < n2 && cursor2 + n2 <= buf2.len(),
        buf1.take(cursor1 + n1) == buf2.take(cursor2 + n2),
    ensures
        step_outcome(r1) == step_outcome(r2),
        r1 matches Ok(step1) ==> r2 matches Ok(step2) && step_cursor(step1) == step_cursor(step2),
{
    let parsed = http_request(buf1.take(cursor1 + n1), MAX_HEADERS as nat);
    assert(buf1.take(cursor1 + n1).len() == cursor1 + n1);
    assert(buf2.take(cursor2 + n2).len() == cursor2 + n2);
    match (r1, r2) {
        (Ok(step1), Ok(step2)) => {
            assert(step_cursor(step1) == remaining(parsed, cursor1 + n1));
            assert(step_cursor(step2) == remaining(parsed, cursor1 + n1));
        },
        (Ok(step1), Err(e)) => {
            assert(step_outcome(r1) != step_outcome(r2));
        },
        (Err(_), _) => {},
    }
}

/// Every request that is complete and readable is answered: with a websocket, with the
/// directions for the root or for anything else, or with what is wrong with its path.
pub proof fn law_refusals_are_answered(
    parsed: Result<
        Option<(nat, Option<Seq<char>>, Seq<(Seq<char>, Seq<u8>)>)>,
        httparse::Error,
    >,
)
    requires
        parsed matches Ok(Some(request)) && !any_unreadable(request.2),
    ensures
        match upgrade_outcome(parsed) {
            UpgradeOutcome::Accepted(_, _) => true,
            UpgradeOutcome::Refused(text) => {
                ||| text == root_response()
                ||| text == other_response()
                ||| text == missing_path_response()
                ||| exists|path: Seq<char>|
                    path != WS_PATH@ && text == #[trigger] wrong_path_response(path)
            },
            _ => false,
        },
{
}

/// What a complete request is answered: a websocket under the path of the stream, with the
/// key it brought; under another path or none, what is wrong; the root without a websocket,
/// where the stream is; anything else, how to ask.
pub proof fn law_each_request_gets_its_own_answer(key: Seq<char>, path: Seq<char>)
    ensures
        path == "/audio"@ ==> route_outcome(Some(key), Some(path)) == UpgradeOutcome::Accepted(
            key,
            path,
        ),
        path != "/audio"@ ==> route_outcome(Some(key), Some(path)) == UpgradeOutcome::Refused(
            response_text(
                404,
                "Not Found"@,
                "Expected websocket path "@ + "/audio"@ + ", got "@ + path,
            ),
        ),
        route_outcome(Some(key), None) == UpgradeOutcome::Refused(
            response_text(400, "Bad Request"@, "Missing HTTP path"@),
        ),
        path == "/"@ ==> route_outcome(None, Some(path)) == UpgradeOutcome::Refused(
            response_text(
                200,
                "OK"@,
                "Websocket audio stream available at ws://<device-ip>"@ + "/audio"@ + "\n"@,
            ),
        ),
        path != "/"@ ==> route_outcome(None, Some(path)) == UpgradeOutcome::Refused(
            response_text(404, "Not Found"@, "Use ws://<ip>/audio"@),
        ),
        route_outcome(None, None) == UpgradeOutcome::Refused(
            response_text(404, "Not Found"@, "Use ws://<ip>/audio"@),
        ),
        path == "/"@ ==> plain_response(Some(path)) == response_text(
            200,
            "OK"@,
            "Websocket audio stream available at ws://<device-ip>"@ + "/audio"@ + "\n"@,
        ),
        path != "/"@ ==> plain_response(Some(path)) == response_text(
            404,
            "Not Found"@,
            "Use ws://<ip>/audio"@,
        ),
        plain_response(None) == response_text(404, "Not Found"@, "Use ws://<ip>/audio"@),
{
}

/// Bytes that are no request yet are read on, bytes that are no HTTP are given up with the
/// parser's error, and a complete request is unreadable exactly when a field of its
/// handshake is not text; otherwise it is answered by what it asks for and by its path.
pub proof fn law_only_complete_readable_requests_are_answered(
    error: httparse::Error,
    request: (nat, Option<Seq<char>>, Seq<(Seq<char>, Seq<u8>)>),
)
    ensures
        upgrade_outcome(Err(error)) == UpgradeOutcome::NotHttp(error),
        upgrade_outcome(Ok(None)) == UpgradeOutcome::Incomplete,
        any_unreadable(request.2) ==> upgrade_outcome(Ok(Some(request)))
            == UpgradeOutcome::BadHeader(HeaderError::NotUtf8),
        !any_unreadable(request.2) && wants_websocket(request.2) ==> upgrade_outcome(
            Ok(Some(request)),
        ) == route_outcome(Some(websocket_key(request.2)), request.1),
        !any_unreadable(request.2) && !wants_websocket(request.2) ==> upgrade_outcome(
            Ok(Some(request)),
        ) == route_outcome(None, request.1),
{
}

/// Only a complete request can be too long, and it is exactly when its fields are.
pub proof fn law_only_the_fields_can_be_too_long(
    error: httparse::Error,
    request: (nat, Option<Seq<char>>, Seq<(Seq<char>, Seq<u8>)>),
)
    ensures
        request_fits(Ok(Some(request))) <==> fields_fit(request.2),
        request_fits(Ok(None)),
        request_fits(Err(error)),
{
}

/// What a step gives, by what the bytes in use parse to: closed exactly when nothing was
/// read; else reading goes on behind all bytes, or the websocket is opened, or the response
/// is sent, or the error is reported. The head of a complete request is taken out of the
/// bytes in use.
pub proof fn law_step_does_what_the_bytes_ask(
    r: Result<UpgradeStep, UpgradeError>,
    buf: Seq<u8>,
    cursor: int,
    n: int,
)
    requires
        upgrade_result(r, buf, cursor, n),
        0 <= cursor && 0 <= n && cursor + n <= buf.len() <= usize::MAX,
        http_request(buf.take(cursor + n), 16) matches Ok(Some(q)) ==> q.0 <= cursor + n,
    ensures
        n == 0 <==> r matches Err(UpgradeError::ConnectionClosed),
        n > 0 ==> match http_request(buf.take(cursor + n), 16) {
            Err(e) => r == Err::<UpgradeStep, UpgradeError>(UpgradeError::HttpParse(e)),
            Ok(None) => r == Ok::<UpgradeStep, UpgradeError>(
                UpgradeStep::ReadMore { cursor: (cursor + n) as usize },
            ),
            Ok(Some(request)) => if any_unreadable(request.2) {
                r == Err::<UpgradeStep, UpgradeError>(
                    UpgradeError::InvalidHeader(HeaderError::NotUtf8),
                )
            } else if wants_websocket(request.2) && request.1 == Some("/audio"@) {
                r matches Ok(UpgradeStep::Accept { key, path, cursor: c }) && key@ == websocket_key(
                    request.2,
                ) && path@ == "/audio"@ && c == cursor + n - request.0
            } else {
                r matches Ok(UpgradeStep::Refuse { response, cursor: c }) && upgrade_outcome(
                    Ok(Some(request)),
                ) == UpgradeOutcome::Refused(response@) && c == cursor + n - request.0
            },
        },
{
}

} // verus!
