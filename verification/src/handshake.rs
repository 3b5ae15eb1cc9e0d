//! The opening handshake of a websocket and the frames behind it, as the
//! `embedded_websocket` crate has them.

use vstd::arithmetic::power::pow;
use vstd::prelude::*;
use vstd::utf8::{decode_utf8, encode_utf8, valid_utf8};

use crate::http::headers_view;

verus! {

/// Longest key that a client may send, in bytes.
pub const MAX_KEY_BYTES: usize = 24;

/// Number of sub-protocols that are looked at.
pub const MAX_PROTOCOLS: usize = 3;

/// Longest name of a sub-protocol that is looked at, in bytes.
pub const MAX_PROTOCOL_BYTES: usize = 24;

/// Room that building the accepting response needs at most.
pub const MIN_ACCEPT_BUFFER: usize = 1024;

/// Why `embedded_websocket` refused something.
#[verifier::external_type_specification]
#[verifier::external_body]
pub struct ExWebSocketError(embedded_websocket::Error);

/// An ASCII capital as a small letter, every other character as it is.
pub open spec fn ascii_lower(c: char) -> char {
    if 'A' <= c <= 'Z' {
        (c as u32 + 32) as char
    } else {
        c
    }
}

/// The strings differ at most in the case of ASCII letters.
pub open spec fn same_ignoring_case(a: Seq<char>, b: Seq<char>) -> bool {
    &&& a.len() == b.len()
    &&& forall|i: int| 0 <= i < a.len() ==> ascii_lower(#[trigger] a[i]) == ascii_lower(b[i])
}

/// An `Upgrade` field.
pub open spec fn is_upgrade(field: (Seq<char>, Seq<u8>)) -> bool {
    same_ignoring_case(field.0, "upgrade"@)
}

/// A `Sec-WebSocket-Protocol` field.
pub open spec fn is_protocol(field: (Seq<char>, Seq<u8>)) -> bool {
    same_ignoring_case(field.0, "sec-websocket-protocol"@)
}

/// A `Sec-WebSocket-Key` field.
pub open spec fn is_key(field: (Seq<char>, Seq<u8>)) -> bool {
    same_ignoring_case(field.0, "sec-websocket-key"@)
}

/// A field that the handshake reads as text, but whose value is not UTF-8.
pub open spec fn is_unreadable(field: (Seq<char>, Seq<u8>)) -> bool {
    (is_upgrade(field) || is_protocol(field) || is_key(field)) && !valid_utf8(field.1)
}

/// Some field is unreadable.
pub open spec fn any_unreadable(fields: Seq<(Seq<char>, Seq<u8>)>) -> bool {
    exists|i: int| 0 <= i < fields.len() && is_unreadable(#[trigger] fields[i])
}

/// The last `Upgrade` field asks for a websocket.
pub open spec fn wants_websocket(fields: Seq<(Seq<char>, Seq<u8>)>) -> bool
    decreases fields.len(),
{
    fields.len() > 0 && if is_upgrade(fields.last()) {
        same_ignoring_case(decode_utf8(fields.last().1), "websocket"@)
    } else {
        wants_websocket(fields.drop_last())
    }
}

/// The value of the last `Sec-WebSocket-Key` field, or nothing.
pub open spec fn websocket_key(fields: Seq<(Seq<char>, Seq<u8>)>) -> Seq<char>
    decreases fields.len(),
{
    if fields.len() == 0 {
        Seq::empty()
    } else if is_key(fields.last()) {
        decode_utf8(fields.last().1)
    } else {
        websocket_key(fields.drop_last())
    }
}

/// A comma and a space stand at `k`.
pub open spec fn is_separator(value: Seq<u8>, k: int) -> bool {
    0 <= k && k + 1 < value.len() && value[k] == 44 && value[k + 1] == 32
}

/// Where the first comma with a space stands at or after `k`, or the end.
pub open spec fn next_separator(value: Seq<u8>, k: int) -> int
    decreases value.len() - k,
{
    if k >= value.len() {
        value.len() as int
    } else if is_separator(value, k) {
        k
    } else {
        next_separator(value, k + 1)
    }
}

/// What stands between commas with a space, from `start` on.
pub open spec fn list_items(value: Seq<u8>, start: int) -> Seq<Seq<u8>>
    decreases value.len() - start,
    when 0 <= start <= value.len()
    via list_items_decreases
{
    let k = next_separator(value, start);
    if k >= value.len() {
        seq![value.subrange(start, value.len() as int)]
    } else {
        seq![value.subrange(start, k)] + list_items(value, k + 2)
    }
}

#[via_fn]
proof fn list_items_decreases(value: Seq<u8>, start: int) {
    lemma_next_separator(value, start);
}

/// The next separator lies between where the search began and the end.
proof fn lemma_next_separator(value: Seq<u8>, k: int)
    requires
        0 <= k <= value.len(),
    ensures
        k <= next_separator(value, k) <= value.len(),
        next_separator(value, k) < value.len() ==> is_separator(value, next_separator(value, k)),
    decreases value.len() - k,
{
    if k < value.len() && !is_separator(value, k) {
        lemma_next_separator(value, k + 1);
    }
}

/// The sub-protocols of all `Sec-WebSocket-Protocol` fields, in order.
pub open spec fn protocols(fields: Seq<(Seq<char>, Seq<u8>)>) -> Seq<Seq<u8>>
    decreases fields.len(),
{
    if fields.len() == 0 {
        Seq::empty()
    } else if is_protocol(fields.last()) {
        protocols(fields.drop_last()) + list_items(fields.last().1, 0)
    } else {
        protocols(fields.drop_last())
    }
}

/// The fields before the first that is unreadable.
pub open spec fn readable_prefix(fields: Seq<(Seq<char>, Seq<u8>)>) -> Seq<(Seq<char>, Seq<u8>)>
    decreases fields.len(),
{
    if fields.len() == 0 || is_unreadable(fields[0]) {
        Seq::empty()
    } else {
        seq![fields[0]] + readable_prefix(fields.drop_first())
    }
}

/// Every key fits the room there is for one, and so do the sub-protocols that are
/// looked at.
pub open spec fn values_fit(fields: Seq<(Seq<char>, Seq<u8>)>) -> bool {
    &&& forall|i: int|
        0 <= i < fields.len() && is_key(#[trigger] fields[i]) ==> fields[i].1.len()
            <= MAX_KEY_BYTES
    &&& forall|j: int|
        0 <= j < protocols(fields).len() && j < MAX_PROTOCOLS ==> (#[trigger] protocols(
            fields,
        )[j]).len() <= MAX_PROTOCOL_BYTES
}

/// Reading the handshake from these fields does not run out of room: what is read
/// before the first unreadable field fits.
pub open spec fn fields_fit(fields: Seq<(Seq<char>, Seq<u8>)>) -> bool {
    values_fit(readable_prefix(fields))
}

/// Why the fields of a handshake could not be read.
pub enum HeaderError {
    /// The value of a field is not UTF-8.
    NotUtf8,
    /// Anything else.
    Other(embedded_websocket::Error),
}

/// Calls `embedded_websocket::read_http_header`. It fails exactly when the value of some
/// field that it reads is not UTF-8, with the error that says so; otherwise it gives the
/// last key when the last `Upgrade` field asks for a websocket. It panics on a key or
/// sub-protocol that is too long, which `requires` leaves out.
#[verifier::external_body]
pub(crate) fn read_http_header(headers: &Vec<(String, Vec<u8>)>) -> (r: Result<
    Option<String>,
    HeaderError,
>)
    requires
        fields_fit(headers_view(headers@)),
    ensures
        r is Err <==> any_unreadable(headers_view(headers@)),
        r matches Err(e) ==> e == HeaderError::NotUtf8,
        r matches Ok(context) ==> (context is Some <==> wants_websocket(headers_view(headers@))),
        r matches Ok(Some(key)) ==> key@ == websocket_key(headers_view(headers@)),
        r matches Ok(Some(key)) ==> encode_utf8(key@).len() <= MAX_KEY_BYTES,
{
    let fields = headers.iter().map(|h| (h.0.as_str(), h.1.as_slice()));
    match embedded_websocket::read_http_header(fields) {
        Ok(context) => Ok(context.map(|c| c.sec_websocket_key.as_str().to_string())),
        Err(embedded_websocket::Error::Utf8Error) => Err(HeaderError::NotUtf8),
        Err(e) => Err(HeaderError::Other(e)),
    }
}

/// Calls `std::str::from_utf8` and tells whether it found the bytes to be UTF-8.
#[verifier::external_body]
fn is_utf8(bytes: &[u8]) -> (r: bool)
    ensures
        r == valid_utf8(bytes@),
{
    std::str::from_utf8(bytes).is_ok()
}

/// An ASCII capital as a small letter, every other character as it is.
fn to_ascii_lower(c: char) -> (r: char)
    ensures
        r == ascii_lower(c),
{
    if 'A' <= c && c <= 'Z' {
        (c as u8 + 32) as char
    } else {
        c
    }
}

/// Whether two strings differ at most in the case of ASCII letters.
fn eq_ignoring_case(a: &str, b: &str) -> (r: bool)
    ensures
        r == same_ignoring_case(a@, b@),
{
    let n: usize = a.unicode_len();
    if n != b.unicode_len() {
        return false;
    }
    let mut i: usize = 0;
    while i < n
        invariant
            i <= n,
            n == a@.len(),
            n == b@.len(),
            forall|j: int| 0 <= j < i ==> ascii_lower(#[trigger] a@[j]) == ascii_lower(b@[j]),
        decreases n - i,
    {
        if to_ascii_lower(a.get_char(i)) != to_ascii_lower(b.get_char(i)) {
            assert(ascii_lower(a@[i as int]) != ascii_lower(b@[i as int]));
            return false;
        }
        i += 1;
    }
    true
}

/// The index of the first comma with a space at or after `from`, or the length.
fn find_separator(value: &Vec<u8>, from: usize) -> (k: usize)
    requires
        from <= value@.len(),
    ensures
        k == next_separator(value@, from as int),
{
    let mut k: usize = from;
    while k < value.len()
        invariant
            from <= k <= value@.len(),
            next_separator(value@, from as int) == next_separator(value@, k as int),
        decreases value@.len() - k,
    {
        if k + 1 < value.len() && value[k] == 44 && value[k + 1] == 32 {
            return k;
        }
        k += 1;
    }
    k
}

/// Every one of the first `room` items is short enough.
spec fn items_fit(items: Seq<Seq<u8>>, room: int) -> bool {
    forall|j: int|
        0 <= j < items.len() && j < room ==> (#[trigger] items[j]).len() <= MAX_PROTOCOL_BYTES
}

/// Counts the items of a list, up to `room`, and tells whether those are short enough.
fn count_items(value: &Vec<u8>, room: usize) -> (r: (usize, bool))
    ensures
        r.1 == items_fit(list_items(value@, 0), room as int),
        r.1 ==> r.0 == if list_items(value@, 0).len() < room {
            list_items(value@, 0).len() as int
        } else {
            room as int
        },
{
    let ghost all = list_items(value@, 0);
    let ghost mut done: Seq<Seq<u8>> = Seq::empty();
    let mut start: usize = 0;
    let mut count: usize = 0;
    assert(done + list_items(value@, 0) =~= all);
    while count < room
        invariant
            all == list_items(value@, 0),
            count <= room,
            count == done.len(),
            start <= value@.len(),
            all == done + list_items(value@, start as int),
            items_fit(done, room as int),
        decreases room - count,
    {
        proof {
            lemma_next_separator(value@, start as int);
        }
        let k: usize = find_separator(value, start);
        let ghost item = value@.subrange(start as int, k as int);
        proof {
            assert(list_items(value@, start as int)[0] == item);
            assert(all[done.len() as int] == item);
        }
        if k - start > MAX_PROTOCOL_BYTES {
            return (count, false);
        }
        if k >= value.len() {
            proof {
                assert(all =~= done.push(item));
            }
            return (count + 1, true);
        }
        proof {
            assert(all =~= done.push(item) + list_items(value@, k + 2));
            done = done.push(item);
        }
        start = k + 2;
        count += 1;
    }
    proof {
        lemma_list_items_nonempty(value@, start as int);
        assert forall|j: int| 0 <= j < all.len() && j < room implies (#[trigger] all[j]).len()
            <= MAX_PROTOCOL_BYTES by {
            assert(all[j] == done[j]);
        }
    }
    (count, true)
}

/// A list has at least one item.
proof fn lemma_list_items_nonempty(value: Seq<u8>, start: int)
    requires
        0 <= start <= value.len(),
    ensures
        list_items(value, start).len() >= 1,
{
    lemma_next_separator(value, start);
}

/// Fields before which nothing is unreadable stay in front.
proof fn lemma_readable_prefix(fields: Seq<(Seq<char>, Seq<u8>)>, n: int)
    requires
        0 <= n <= fields.len(),
        forall|i: int| 0 <= i < n ==> !is_unreadable(#[trigger] fields[i]),
    ensures
        readable_prefix(fields) == fields.take(n) + readable_prefix(fields.skip(n)),
    decreases n,
{
    if n == 0 {
        assert(fields.skip(0) =~= fields);
        assert(readable_prefix(fields) =~= fields.take(0) + readable_prefix(fields.skip(0)));
    } else {
        assert(!is_unreadable(fields[0]));
        let rest = fields.drop_first();
        assert forall|i: int| 0 <= i < n - 1 implies !is_unreadable(#[trigger] rest[i]) by {
            assert(rest[i] == fields[i + 1]);
        }
        lemma_readable_prefix(rest, n - 1);
        assert(rest.skip(n - 1) =~= fields.skip(n));
        assert(fields.take(n) =~= seq![fields[0]] + rest.take(n - 1));
        assert(readable_prefix(fields) =~= fields.take(n) + readable_prefix(fields.skip(n)));
    }
}

/// More fields only add sub-protocols behind those that were there.
proof fn lemma_protocols_extend(a: Seq<(Seq<char>, Seq<u8>)>, b: Seq<(Seq<char>, Seq<u8>)>)
    ensures
        protocols(a).len() <= protocols(a + b).len(),
        forall|j: int|
            0 <= j < protocols(a).len() ==> #[trigger] protocols(a + b)[j] == protocols(a)[j],
    decreases b.len(),
{
    if b.len() == 0 {
        assert(a + b =~= a);
    } else {
        lemma_protocols_extend(a, b.drop_last());
        assert((a + b).drop_last() =~= a + b.drop_last());
    }
}

/// Whether reading the handshake from these header fields does not run out of room.
pub fn header_fits(headers: &Vec<(String, Vec<u8>)>) -> (r: bool)
    ensures
        r == fields_fit(headers_view(headers@)),
{
    let ghost fields = headers_view(headers@);
    let mut seen: usize = 0;
    let mut i: usize = 0;
    assert(fields.take(0) =~= Seq::<(Seq<char>, Seq<u8>)>::empty());
    while i < headers.len()
        invariant
            fields == headers_view(headers@),
            i <= headers@.len(),
            forall|j: int| 0 <= j < i ==> !is_unreadable(#[trigger] fields[j]),
            values_fit(fields.take(i as int)),
            seen <= MAX_PROTOCOLS,
            seen == (if protocols(fields.take(i as int)).len() < MAX_PROTOCOLS {
                protocols(fields.take(i as int)).len() as int
            } else {
                MAX_PROTOCOLS as int
            }),
        decreases headers@.len() - i,
    {
        let ghost field = fields[i as int];
        let ghost before = fields.take(i as int);
        let ghost after = fields.take(i + 1);
        proof {
            assert(after.drop_last() =~= before);
            assert(after.last() == field);
            assert(after =~= before.push(field));
        }
        let name: &str = headers[i].0.as_str();
        let value: &Vec<u8> = &headers[i].1;
        let upgrade: bool = eq_ignoring_case(name, "upgrade");
        let protocol: bool = eq_ignoring_case(name, "sec-websocket-protocol");
        let key: bool = eq_ignoring_case(name, "sec-websocket-key");
        if (upgrade || protocol || key) && !is_utf8(value.as_slice()) {
            proof {
                lemma_readable_prefix(fields, i as int);
                assert(fields.skip(i as int)[0] == field);
                assert(readable_prefix(fields) =~= before);
            }
            return true;
        }
        proof {
            lemma_readable_prefix(fields, i + 1);
            lemma_protocols_extend(after, readable_prefix(fields.skip(i + 1)));
        }
        let ghost whole = readable_prefix(fields);
        if key && value.len() > MAX_KEY_BYTES {
            proof {
                assert(whole[i as int] == field);
                assert(is_key(whole[i as int]));
            }
            return false;
        }
        if protocol {
            let (more, fit): (usize, bool) = count_items(value, MAX_PROTOCOLS - seen);
            let ghost items = list_items(field.1, 0);
            proof {
                assert(protocols(after) == protocols(before) + items);
            }
            if !fit {
                proof {
                    let j = choose|j: int|
                        0 <= j < items.len() && j < MAX_PROTOCOLS - seen && (
                        #[trigger] items[j]).len() > MAX_PROTOCOL_BYTES;
                    assert(protocols(after)[protocols(before).len() + j] == items[j]);
                    assert(protocols(whole)[protocols(before).len() + j] == items[j]);
                }
                return false;
            }
            proof {
                assert forall|j: int|
                    0 <= j < protocols(after).len() && j < MAX_PROTOCOLS implies (
                #[trigger] protocols(after)[j]).len() <= MAX_PROTOCOL_BYTES by {
                    if j < protocols(before).len() {
                        assert(protocols(after)[j] == protocols(before)[j]);
                    } else {
                        assert(protocols(after)[j] == items[j - protocols(before).len()]);
                    }
                }
            }
            seen += more;
        } else {
            assert(protocols(after) == protocols(before));
        }
        proof {
            assert forall|j: int| 0 <= j < after.len() && is_key(#[trigger] after[j]) implies
                after[j].1.len() <= MAX_KEY_BYTES by {
                if j < i {
                    assert(after[j] == before[j]);
                }
            }
        }
        i += 1;
    }
    proof {
        lemma_readable_prefix(fields, fields.len() as int);
        assert(fields.take(fields.len() as int) =~= fields);
        assert(readable_prefix(fields) =~= fields);
    }
    true
}

/// What a server sends back for a key to show that it speaks websocket: the Base64 form
/// of the SHA-1 of the key with a fixed suffix, as `embedded_websocket` computes it.
pub uninterp spec fn accept_token(key: Seq<char>) -> Seq<char>;

/// The response that completes the opening handshake.
pub open spec fn accept_response(token: Seq<char>) -> Seq<char> {
    "HTTP/1.1 101 Switching Protocols\r\nConnection: Upgrade\r\nUpgrade: websocket\r\nSec-WebSocket-Accept: "@
        + token + "\r\n\r\n"@
}

/// Calls `embedded_websocket::WebSocketServer::server_accept` on a new server, without a
/// sub-protocol, and gives what it wrote to a buffer of `capacity` bytes. For a key that
/// fits and a buffer that the longest response fits it always succeeds.
#[verifier::external_body]
pub(crate) fn server_accept(key: &str, capacity: usize) -> (r: Result<Vec<u8>, embedded_websocket::Error>)
    requires
        encode_utf8(key@).len() <= MAX_KEY_BYTES,
        MIN_ACCEPT_BUFFER <= capacity <= isize::MAX,
    ensures
        r is Ok,
        r matches Ok(response) ==> response@ == encode_utf8(accept_response(accept_token(key@))),
{
    let mut to = vec![0u8; capacity];
    let mut server = embedded_websocket::WebSocketServer::new_server();
    let key = embedded_websocket::WebSocketKey::from(key);
    let len = server.server_accept(&key, None, &mut to)?;
    to.truncate(len);
    Ok(to)
}

/// The bytes of `n` in base 256, `k` of them, the highest first.
pub open spec fn be_bytes(n: nat, k: nat) -> Seq<u8>
    decreases k,
{
    if k == 0 {
        Seq::empty()
    } else {
        be_bytes(n / 256, (k - 1) as nat).push((n % 256) as u8)
    }
}

/// The number that bytes stand for in base 256, the highest first.
pub open spec fn be_value(bytes: Seq<u8>) -> nat
    decreases bytes.len(),
{
    if bytes.len() == 0 {
        0
    } else {
        256 * be_value(bytes.drop_last()) + bytes.last() as nat
    }
}

/// The header of an unmasked binary message of `len` bytes that is not fragmented.
pub open spec fn binary_header(len: nat) -> Seq<u8> {
    if len < 126 {
        seq![0x82u8, len as u8]
    } else if len < 65535 {
        seq![0x82u8, 126] + be_bytes(len, 2)
    } else {
        seq![0x82u8, 127] + be_bytes(len, 8)
    }
}

/// An unmasked binary message that is not fragmented.
pub open spec fn binary_frame(payload: Seq<u8>) -> Seq<u8> {
    binary_header(payload.len()) + payload
}

/// The length that the header of an unmasked frame declares.
pub open spec fn declared_len(frame: Seq<u8>) -> nat {
    if frame[1] < 126 {
        frame[1] as nat
    } else if frame[1] == 126 {
        be_value(frame.subrange(2, 4))
    } else {
        be_value(frame.subrange(2, 10))
    }
}

/// What follows the header of an unmasked frame.
pub open spec fn frame_body(frame: Seq<u8>) -> Seq<u8> {
    if frame[1] < 126 {
        frame.skip(2)
    } else if frame[1] == 126 {
        frame.skip(4)
    } else {
        frame.skip(10)
    }
}

/// Calls `embedded_websocket::WebSocketServer::write` on an open server, with a whole
/// binary message, and gives what it wrote to a buffer of `capacity` bytes. It fails
/// exactly when the frame does not fit. Which error it gives is not stated.
#[verifier::external_body]
pub(crate) fn write_binary(payload: &[u8], capacity: usize) -> (r: Result<Vec<u8>, embedded_websocket::Error>)
    requires
        capacity <= isize::MAX,
    ensures
        r is Ok <==> binary_frame(payload@).len() <= capacity,
        r matches Ok(frame) ==> frame@ == binary_frame(payload@),
{
    let mut to = vec![0u8; capacity];
    let mut server = embedded_websocket::WebSocketServer::new_server();
    server.state = embedded_websocket::WebSocketState::Open;
    let kind = embedded_websocket::WebSocketSendMessageType::Binary;
    let len = server.write(kind, true, payload, &mut to)?;
    to.truncate(len);
    Ok(to)
}

/// Base 256 loses nothing of a number that fits.
proof fn lemma_be_round_trip(n: nat, k: nat)
    requires
        n < pow(256, k),
    ensures
        be_bytes(n, k).len() == k,
        be_value(be_bytes(n, k)) == n,
    decreases k,
{
    reveal(pow);
    if k > 0 {
        assert(n / 256 < pow(256, (k - 1) as nat)) by (nonlinear_arith)
            requires
                n < 256 * pow(256, (k - 1) as nat),
        ;
        lemma_be_round_trip(n / 256, (k - 1) as nat);
        assert(be_bytes(n, k).drop_last() =~= be_bytes(n / 256, (k - 1) as nat));
    }
}

/// Base 256 has as many bytes as were asked for.
proof fn lemma_be_len(n: nat, k: nat)
    ensures
        be_bytes(n, k).len() == k,
    decreases k,
{
    if k > 0 {
        lemma_be_len(n / 256, (k - 1) as nat);
    }
}

/// A frame is longer than its payload by two, four or ten bytes.
pub proof fn law_binary_frame_overhead(payload: Seq<u8>)
    ensures
        binary_frame(payload).len() == payload.len() + (if payload.len() < 126 {
            2int
        } else if payload.len() < 65535 {
            4
        } else {
            10
        }),
{
    lemma_be_len(payload.len(), 2);
    lemma_be_len(payload.len(), 8);
}

/// A receiver that goes by the header finds the payload whole: the header declares its
/// length, and it follows the header. The payload is no longer than an address space.
pub proof fn law_binary_frame_round_trip(payload: Seq<u8>)
    requires
        payload.len() <= u64::MAX,
    ensures
        declared_len(binary_frame(payload)) == payload.len(),
        frame_body(binary_frame(payload)) == payload,
{
    let frame = binary_frame(payload);
    let n = payload.len();
    if n < 126 {
        assert(frame.skip(2) =~= payload);
    } else if n < 65535 {
        assert(pow(256, 2) == 65536) by {
            reveal_with_fuel(pow, 3);
        }
        lemma_be_round_trip(n, 2);
        assert(frame.subrange(2, 4) =~= be_bytes(n, 2));
        assert(frame.skip(4) =~= payload);
    } else {
        assert(pow(256, 8) == 0x1_0000_0000_0000_0000) by {
            reveal_with_fuel(pow, 9);
        }
        lemma_be_round_trip(n, 8);
        assert(frame.subrange(2, 10) =~= be_bytes(n, 8));
        assert(frame.skip(10) =~= payload);
    }
}

/// Strings count as the same exactly when they are equally long and each two characters are
/// equal or the two cases of one ASCII letter.
pub proof fn law_only_the_case_of_letters_is_ignored(a: Seq<char>, b: Seq<char>)
    ensures
        same_ignoring_case(a, b) <==> a.len() == b.len() && forall|i: int|
            #![trigger a[i]]
            #![trigger b[i]]
            0 <= i < a.len() ==> {
                ||| a[i] == b[i]
                ||| 65 <= a[i] as int <= 90 && b[i] as int == a[i] as int + 32
                ||| 65 <= b[i] as int <= 90 && a[i] as int == b[i] as int + 32
            },
{
    if same_ignoring_case(a, b) {
        assert forall|i: int|
            #![trigger a[i]]
            #![trigger b[i]]
            0 <= i < a.len() implies {
            ||| a[i] == b[i]
            ||| 65 <= a[i] as int <= 90 && b[i] as int == a[i] as int + 32
            ||| 65 <= b[i] as int <= 90 && a[i] as int == b[i] as int + 32
        } by {
            assert(ascii_lower(a[i]) == ascii_lower(b[i]));
        }
    }
}

/// The last `Upgrade` field decides whether a websocket is asked for, by its value; without
/// such a field none is.
pub proof fn law_last_upgrade_field_decides(fields: Seq<(Seq<char>, Seq<u8>)>, i: int)
    requires
        -1 <= i < fields.len(),
        i >= 0 ==> same_ignoring_case(fields[i].0, "upgrade"@),
        forall|j: int|
            i < j < fields.len() ==> !same_ignoring_case((#[trigger] fields[j]).0, "upgrade"@),
    ensures
        i == -1 ==> !wants_websocket(fields),
        i >= 0 ==> wants_websocket(fields) == same_ignoring_case(
            decode_utf8(fields[i].1),
            "websocket"@,
        ),
    decreases fields.len(),
{
    if fields.len() > 0 && i < fields.len() - 1 {
        let head = fields.drop_last();
        assert(!same_ignoring_case(fields[fields.len() - 1].0, "upgrade"@));
        assert forall|j: int| i < j < head.len() implies !same_ignoring_case(
            (#[trigger] head[j]).0,
            "upgrade"@,
        ) by {
            assert(head[j] == fields[j]);
        }
        law_last_upgrade_field_decides(head, i);
    }
}

/// The key is the value of the last key field, whole; without such a field it is empty.
pub proof fn law_last_key_field_gives_the_key(fields: Seq<(Seq<char>, Seq<u8>)>, i: int)
    requires
        -1 <= i < fields.len(),
        i >= 0 ==> same_ignoring_case(fields[i].0, "sec-websocket-key"@),
        forall|j: int|
            i < j < fields.len() ==> !same_ignoring_case(
                (#[trigger] fields[j]).0,
                "sec-websocket-key"@,
            ),
    ensures
        i == -1 ==> websocket_key(fields).len() == 0,
        i >= 0 ==> websocket_key(fields) == decode_utf8(fields[i].1),
    decreases fields.len(),
{
    if fields.len() > 0 && i < fields.len() - 1 {
        let head = fields.drop_last();
        assert(!same_ignoring_case(fields[fields.len() - 1].0, "sec-websocket-key"@));
        assert forall|j: int| i < j < head.len() implies !same_ignoring_case(
            (#[trigger] head[j]).0,
            "sec-websocket-key"@,
        ) by {
            assert(head[j] == fields[j]);
        }
        law_last_key_field_gives_the_key(head, i);
    }
}

/// A handshake is unreadable exactly when one of its three fields is there with a value
/// that is not UTF-8; other fields may hold anything.
pub proof fn law_only_handshake_fields_must_be_text(fields: Seq<(Seq<char>, Seq<u8>)>)
    ensures
        any_unreadable(fields) <==> exists|i: int|
            #![trigger fields[i]]
            0 <= i < fields.len() && !valid_utf8(fields[i].1) && (same_ignoring_case(
                fields[i].0,
                "upgrade"@,
            ) || same_ignoring_case(fields[i].0, "sec-websocket-protocol"@) || same_ignoring_case(
                fields[i].0,
                "sec-websocket-key"@,
            )),
{
    if any_unreadable(fields) {
        let i = choose|i: int| 0 <= i < fields.len() && is_unreadable(#[trigger] fields[i]);
        assert(!valid_utf8(fields[i].1));
    }
    if exists|i: int|
        #![trigger fields[i]]
        0 <= i < fields.len() && !valid_utf8(fields[i].1) && (same_ignoring_case(
            fields[i].0,
            "upgrade"@,
        ) || same_ignoring_case(fields[i].0, "sec-websocket-protocol"@) || same_ignoring_case(
            fields[i].0,
            "sec-websocket-key"@,
        )) {
        let i = choose|i: int|
            #![trigger fields[i]]
            0 <= i < fields.len() && !valid_utf8(fields[i].1) && (same_ignoring_case(
                fields[i].0,
                "upgrade"@,
            ) || same_ignoring_case(fields[i].0, "sec-websocket-protocol"@) || same_ignoring_case(
                fields[i].0,
                "sec-websocket-key"@,
            ));
        assert(is_unreadable(fields[i]));
    }
}

/// What stands in front of the first unreadable field comes from the fields.
proof fn lemma_readable_prefix_is_front(fields: Seq<(Seq<char>, Seq<u8>)>)
    ensures
        readable_prefix(fields).is_prefix_of(fields),
    decreases fields.len(),
{
    if fields.len() > 0 && !is_unreadable(fields[0]) {
        lemma_readable_prefix_is_front(fields.drop_first());
        let rest = readable_prefix(fields.drop_first());
        assert(fields.take(rest.len() as int + 1) =~= seq![fields[0]] + fields.drop_first().take(
            rest.len() as int,
        ));
    }
}

/// Each sub-protocol stands in one of the fields that name them.
proof fn lemma_protocols_come_from_fields(fields: Seq<(Seq<char>, Seq<u8>)>, j: int)
    requires
        0 <= j < protocols(fields).len(),
    ensures
        exists|i: int, k: int|
            0 <= i < fields.len() && is_protocol(#[trigger] fields[i]) && 0 <= k < list_items(
                fields[i].1,
                0,
            ).len() && protocols(fields)[j] == #[trigger] list_items(fields[i].1, 0)[k],
    decreases fields.len(),
{
    if fields.len() > 0 {
        let head = fields.drop_last();
        let last = fields.len() - 1;
        if j < protocols(head).len() {
            lemma_protocols_come_from_fields(head, j);
            let (i, k) = choose|i: int, k: int|
                0 <= i < head.len() && is_protocol(#[trigger] head[i]) && 0 <= k < list_items(
                    head[i].1,
                    0,
                ).len() && protocols(head)[j] == #[trigger] list_items(head[i].1, 0)[k];
            assert(fields[i] == head[i]);
            assert(protocols(fields)[j] == list_items(fields[i].1, 0)[k]);
        } else {
            assert(fields[last] == fields.last());
            assert(protocols(fields)[j] == list_items(fields[last].1, 0)[j - protocols(
                head,
            ).len()]);
        }
    }
}

/// A handshake always fits when no key and no name of a sub-protocol has more than 24
/// bytes, however many fields there are and whatever else they hold.
pub proof fn law_ordinary_handshakes_fit(fields: Seq<(Seq<char>, Seq<u8>)>)
    requires
        forall|i: int|
            0 <= i < fields.len() && same_ignoring_case(
                (#[trigger] fields[i]).0,
                "sec-websocket-key"@,
            ) ==> fields[i].1.len() <= 24,
        forall|i: int, k: int|
            0 <= i < fields.len() && same_ignoring_case(
                (#[trigger] fields[i]).0,
                "sec-websocket-protocol"@,
            ) && 0 <= k < list_items(fields[i].1, 0).len() ==> (#[trigger] list_items(
                fields[i].1,
                0,
            )[k]).len() <= 24,
    ensures
        fields_fit(fields),
{
    let front = readable_prefix(fields);
    lemma_readable_prefix_is_front(fields);
    assert(forall|i: int| 0 <= i < front.len() ==> #[trigger] front[i] == fields[i]);
    assert forall|j: int| 0 <= j < protocols(front).len() && j < MAX_PROTOCOLS implies (
    #[trigger] protocols(front)[j]).len() <= MAX_PROTOCOL_BYTES by {
        lemma_protocols_come_from_fields(front, j);
        let (i, k) = choose|i: int, k: int|
            0 <= i < front.len() && is_protocol(#[trigger] front[i]) && 0 <= k < list_items(
                front[i].1,
                0,
            ).len() && protocols(front)[j] == #[trigger] list_items(front[i].1, 0)[k];
        assert(front[i] == fields[i]);
        assert(list_items(fields[i].1, 0)[k].len() <= 24);
    }
}

/// A list that is no longer than 24 bytes, such as a single short name, names nothing that
/// is longer.
pub proof fn law_items_are_no_longer_than_their_list(value: Seq<u8>, start: int, k: int)
    requires
        0 <= start <= value.len(),
        0 <= k < list_items(value, start).len(),
    ensures
        list_items(value, start)[k].len() <= value.len() - start,
    decreases value.len() - start,
{
    lemma_next_separator(value, start);
    let s = next_separator(value, start);
    if s < value.len() && k > 0 {
        law_items_are_no_longer_than_their_list(value, s + 2, k - 1);
        assert(list_items(value, start)[k] == list_items(value, s + 2)[k - 1]);
    }
}

/// Items with a comma and a space between each two.
pub open spec fn joined_items(items: Seq<Seq<u8>>) -> Seq<u8>
    decreases items.len(),
{
    if items.len() == 0 {
        Seq::empty()
    } else if items.len() == 1 {
        items[0]
    } else {
        items[0] + seq![44u8, 32u8] + joined_items(items.drop_first())
    }
}

/// The items of a list, with a comma and a space between each two, are the list.
pub proof fn law_items_make_up_their_list(value: Seq<u8>, start: int)
    requires
        0 <= start <= value.len(),
    ensures
        list_items(value, start).len() >= 1,
        joined_items(list_items(value, start)) == value.skip(start),
    decreases value.len() - start,
{
    lemma_next_separator(value, start);
    let s = next_separator(value, start);
    let items = list_items(value, start);
    if s >= value.len() {
        assert(items[0] =~= value.skip(start));
    } else {
        law_items_make_up_their_list(value, s + 2);
        assert(items.drop_first() =~= list_items(value, s + 2));
        assert(value.skip(start) =~= value.subrange(start, s) + seq![44u8, 32u8] + value.skip(
            s + 2,
        ));
    }
}

/// A message on the wire: the first byte says that it is binary and whole, then comes its
/// length, in one byte or behind a mark in two, the high one first, and then the payload,
/// byte by byte.
pub proof fn law_message_is_header_and_payload(payload: Seq<u8>)
    ensures
        payload.len() < 126 ==> binary_frame(payload) == seq![0x82u8, payload.len() as u8]
            + payload,
        126 <= payload.len() < 65535 ==> binary_frame(payload) == seq![
            0x82u8,
            126u8,
            (payload.len() / 256) as u8,
            (payload.len() % 256) as u8,
        ] + payload,
{
    reveal_with_fuel(be_bytes, 3);
    if 126 <= payload.len() < 65535 {
        let n = payload.len();
        assert((n / 256) % 256 == n / 256);
        assert(be_bytes(n, 2) =~= seq![(n / 256) as u8, (n % 256) as u8]);
        assert(binary_header(n) =~= seq![0x82u8, 126u8, (n / 256) as u8, (n % 256) as u8]);
    }
}

/// No separator stands before the next one.
proof fn lemma_none_before_the_next(value: Seq<u8>, from: int, p: int)
    requires
        0 <= from <= p < next_separator(value, from),
        from <= value.len(),
    ensures
        !is_separator(value, p),
    decreases value.len() - from,
{
    if from < value.len() && !is_separator(value, from) && from < p {
        lemma_none_before_the_next(value, from + 1, p);
    }
}

/// No item of a list has a comma and a space in it: the list is split at each of them.
pub proof fn law_lists_are_split_at_every_separator(value: Seq<u8>, start: int, k: int, p: int)
    requires
        0 <= start <= value.len(),
        0 <= k < list_items(value, start).len(),
        0 <= p && p + 1 < list_items(value, start)[k].len(),
    ensures
        !(list_items(value, start)[k][p] == 44 && list_items(value, start)[k][p + 1] == 32),
    decreases value.len() - start,
{
    lemma_next_separator(value, start);
    let s = next_separator(value, start);
    if s < value.len() && k > 0 {
        assert(list_items(value, start)[k] == list_items(value, s + 2)[k - 1]);
        law_lists_are_split_at_every_separator(value, s + 2, k - 1, p);
    } else {
        assert(list_items(value, start)[k] == value.subrange(start, s));
        lemma_none_before_the_next(value, start, start + p);
    }
}

/// A further field adds its sub-protocols behind those that were named before, if it names
/// any, and otherwise none.
pub proof fn law_protocols_are_listed_in_order(
    fields: Seq<(Seq<char>, Seq<u8>)>,
    field: (Seq<char>, Seq<u8>),
)
    ensures
        protocols(Seq::empty()).len() == 0,
        protocols(fields.push(field)) == protocols(fields) + (if same_ignoring_case(
            field.0,
            "sec-websocket-protocol"@,
        ) {
            list_items(field.1, 0)
        } else {
            Seq::empty()
        }),
{
    assert(fields.push(field).drop_last() =~= fields);
}

/// A handshake fits as long as what is read of it does: only the fields before the first
/// that is not text are, and of the sub-protocols only three.
pub proof fn law_only_what_is_read_must_fit(fields: Seq<(Seq<char>, Seq<u8>)>, k: int)
    requires
        0 <= k <= fields.len(),
        k < fields.len() ==> any_unreadable(seq![fields[k]]),
        forall|i: int|
            0 <= i < k ==> !any_unreadable(seq![#[trigger] fields[i]]),
    ensures
        fields_fit(fields) <==> {
            &&& forall|i: int|
                0 <= i < k && same_ignoring_case(
                    (#[trigger] fields[i]).0,
                    "sec-websocket-key"@,
                ) ==> fields[i].1.len() <= 24
            &&& forall|j: int|
                0 <= j < protocols(fields.take(k)).len() && j < 3 ==> (#[trigger] protocols(
                    fields.take(k),
                )[j]).len() <= 24
        },
{
    assert forall|i: int| 0 <= i < k implies !is_unreadable(#[trigger] fields[i]) by {
        let one = seq![fields[i]];
        assert(one[0] == fields[i]);
        assert(!any_unreadable(one));
        assert(!is_unreadable(one[0]));
    }
    lemma_readable_prefix(fields, k);
    let rest = fields.skip(k);
    if k < fields.len() {
        let one = seq![fields[k]];
        let i = choose|i: int| 0 <= i < one.len() && is_unreadable(#[trigger] one[i]);
        assert(one[i] == fields[k]);
        assert(rest[0] == fields[k]);
    }
    let front = fields.take(k);
    assert(readable_prefix(rest) =~= Seq::<(Seq<char>, Seq<u8>)>::empty());
    assert(readable_prefix(fields) =~= front);
    assert(forall|i: int| 0 <= i < k ==> #[trigger] front[i] == fields[i]);
    if values_fit(front) {
        assert forall|i: int|
            0 <= i < k && same_ignoring_case(
                (#[trigger] fields[i]).0,
                "sec-websocket-key"@,
            ) implies fields[i].1.len() <= 24 by {
            assert(is_key(front[i]));
        }
    }
}

} // verus!
