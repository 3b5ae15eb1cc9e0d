use esp32s3_i2s_mic_idf::handshake::header_fits;
use esp32s3_i2s_mic_idf::handshake::HeaderError;
use esp32s3_i2s_mic_idf::http::{simple_response, HttpRequest};
use esp32s3_i2s_mic_idf::upgrade::{
    answer_request, handle_non_websocket_request, read_any_upgrade, read_websocket_upgrade,
    route_request, UpgradeError, UpgradeStep,
};

const KEY: &str = "dGhlIHNhbXBsZSBub25jZQ==";

fn request(path: &str, fields: &str) -> Vec<u8> {
    format!("GET {} HTTP/1.1\r\nHost: mic\r\n{}\r\n", path, fields).into_bytes()
}

fn upgrade(path: &str) -> Vec<u8> {
    request(
        path,
        &format!("Upgrade: websocket\r\nConnection: Upgrade\r\nSec-WebSocket-Key: {}\r\n", KEY),
    )
}

fn decide(bytes: &[u8]) -> Result<UpgradeStep, UpgradeError> {
    read_any_upgrade(bytes, 0, bytes.len()).unwrap()
}

fn refusal(step: Result<UpgradeStep, UpgradeError>) -> String {
    match step {
        Ok(UpgradeStep::Refuse { response, .. }) => response,
        _ => panic!("the request was not refused"),
    }
}

fn fields(list: &[(&str, &[u8])]) -> Vec<(String, Vec<u8>)> {
    list.iter().map(|(n, v)| (n.to_string(), v.to_vec())).collect()
}

#[test]
fn a_request_for_the_stream_is_accepted() {
    let bytes = upgrade("/audio");
    match read_websocket_upgrade(&bytes, 0, bytes.len()) {
        Ok(UpgradeStep::Accept { key, path, cursor }) => {
            assert_eq!(key, KEY);
            assert_eq!(path, "/audio");
            assert_eq!(cursor, 0);
        }
        _ => panic!("the request was not accepted"),
    }
}

#[test]
fn the_case_of_field_names_does_not_matter() {
    let bytes = request("/audio", "UPGRADE: WebSocket\r\nsec-WEBSOCKET-key: abc\r\n");
    match decide(&bytes) {
        Ok(UpgradeStep::Accept { key, .. }) => assert_eq!(key, "abc"),
        _ => panic!("the request was not accepted"),
    }
}

#[test]
fn the_last_of_several_fields_counts() {
    let bytes = request(
        "/audio",
        "Upgrade: h2c\r\nSec-WebSocket-Key: a\r\nUpgrade: websocket\r\nSec-WebSocket-Key: b\r\n",
    );
    match decide(&bytes) {
        Ok(UpgradeStep::Accept { key, .. }) => assert_eq!(key, "b"),
        _ => panic!("the request was not accepted"),
    }
    let bytes = request("/", "Upgrade: websocket\r\nUpgrade: h2c\r\n");
    assert!(refusal(decide(&bytes)).starts_with("HTTP/1.1 200 OK\r\n"));
}

#[test]
fn a_key_may_be_missing() {
    match decide(&request("/audio", "Upgrade: websocket\r\n")) {
        Ok(UpgradeStep::Accept { key, .. }) => assert_eq!(key, ""),
        _ => panic!("the request was not accepted"),
    }
}

#[test]
fn bytes_behind_the_head_stay_in_use() {
    let mut bytes = upgrade("/audio");
    bytes.extend_from_slice(&[1, 2, 3]);
    match decide(&bytes) {
        Ok(UpgradeStep::Accept { cursor, .. }) => assert_eq!(cursor, 3),
        _ => panic!("the request was not accepted"),
    }
}

#[test]
fn a_request_may_come_in_pieces() {
    let bytes = upgrade("/audio");
    let mut buf = [0u8; 4096];
    let mut cursor = 0;
    for (i, b) in bytes.iter().enumerate() {
        buf[cursor] = *b;
        match read_any_upgrade(&buf, cursor, 1).unwrap() {
            Ok(UpgradeStep::ReadMore { cursor: next }) => {
                assert_eq!(next, i + 1);
                cursor = next;
            }
            Ok(UpgradeStep::Accept { key, cursor, .. }) => {
                assert_eq!(i, bytes.len() - 1);
                assert_eq!(key, KEY);
                assert_eq!(cursor, 0);
            }
            _ => panic!("the request was not accepted"),
        }
    }
}

#[test]
fn another_path_gets_no_websocket() {
    assert_eq!(
        refusal(decide(&upgrade("/video"))),
        simple_response(404, "Not Found", "Expected websocket path /audio, got /video")
    );
    assert_eq!(
        refusal(decide(&upgrade("/audio/"))),
        simple_response(404, "Not Found", "Expected websocket path /audio, got /audio/")
    );
}

#[test]
fn the_root_tells_where_the_stream_is() {
    assert_eq!(
        refusal(decide(&request("/", ""))),
        simple_response(
            200,
            "OK",
            "Websocket audio stream available at ws://<device-ip>/audio\n"
        )
    );
}

#[test]
fn every_other_request_is_not_found() {
    let expected = simple_response(404, "Not Found", "Use ws://<ip>/audio");
    assert_eq!(refusal(decide(&request("/audio", ""))), expected);
    assert_eq!(refusal(decide(&request("/favicon.ico", ""))), expected);
    assert_eq!(handle_non_websocket_request(&None), expected);
}

#[test]
fn a_websocket_without_a_path_is_a_bad_request() {
    match route_request(Some("k".to_string()), None, 5) {
        UpgradeStep::Refuse { response, cursor } => {
            assert_eq!(response, simple_response(400, "Bad Request", "Missing HTTP path"));
            assert_eq!(cursor, 5);
        }
        _ => panic!("the request was not refused"),
    }
}

#[test]
fn nothing_read_means_closed() {
    assert!(matches!(
        read_any_upgrade(b"GET / HT", 8, 0),
        Some(Err(UpgradeError::ConnectionClosed))
    ));
    let full = [b'A'; 4096];
    assert!(matches!(
        read_any_upgrade(&full, 4096, 0),
        Some(Err(UpgradeError::ConnectionClosed))
    ));
}

#[test]
fn what_is_not_http_is_refused_by_the_parser() {
    assert!(matches!(
        decide(b"GET / HTTP/9.9\r\n\r\n"),
        Err(UpgradeError::HttpParse(httparse::Error::Version))
    ));
    assert!(matches!(
        decide(b"G\0T / HTTP/1.1\r\n\r\n"),
        Err(UpgradeError::HttpParse(httparse::Error::Token))
    ));
}

#[test]
fn sixteen_fields_are_enough() {
    let sixteen = "X-A: 1\r\n".repeat(15);
    assert!(matches!(decide(&request("/", &sixteen)), Ok(UpgradeStep::Refuse { .. })));
    let seventeen = "X-A: 1\r\n".repeat(16);
    assert!(matches!(
        decide(&request("/", &seventeen)),
        Err(UpgradeError::HttpParse(httparse::Error::TooManyHeaders))
    ));
}

#[test]
fn a_handshake_that_is_not_text_is_refused() {
    let mut bytes = b"GET /audio HTTP/1.1\r\nUpgrade: web".to_vec();
    bytes.push(0xff);
    bytes.extend_from_slice(b"socket\r\n\r\n");
    assert!(matches!(
        decide(&bytes),
        Err(UpgradeError::InvalidHeader(HeaderError::NotUtf8))
    ));
    let mut bytes = b"GET / HTTP/1.1\r\nX-Other: ".to_vec();
    bytes.push(0xff);
    bytes.extend_from_slice(b"\r\n\r\n");
    assert!(matches!(decide(&bytes), Ok(UpgradeStep::Refuse { .. })));
}

#[test]
fn a_handshake_that_is_too_long_is_left_alone() {
    let long = format!("Upgrade: websocket\r\nSec-WebSocket-Key: {}A\r\n", KEY);
    let bytes = request("/audio", &long);
    assert!(read_any_upgrade(&bytes, 0, bytes.len()).is_none());
    let bytes = request("/audio", "Sec-WebSocket-Protocol: a, b, 1234567890123456789012345\r\n");
    assert!(read_any_upgrade(&bytes, 0, bytes.len()).is_none());
}

#[test]
fn keys_and_protocols_have_room_for_24_bytes() {
    assert!(header_fits(&fields(&[("Sec-WebSocket-Key", &[b'k'; 24])])));
    assert!(!header_fits(&fields(&[("Sec-WebSocket-Key", &[b'k'; 25])])));
    assert!(!header_fits(&fields(&[("sec-websocket-KEY", &[b'k'; 25])])));
    assert!(header_fits(&fields(&[("Upgrade", &[b'k'; 2000])])));
    assert!(header_fits(&fields(&[("Sec-WebSocket-Protocol", &[b'p'; 24])])));
    assert!(!header_fits(&fields(&[("Sec-WebSocket-Protocol", &[b'p'; 25])])));
    assert!(header_fits(&fields(&[("Cookie", &[b'c'; 500])])));
    assert!(header_fits(&[].to_vec()));
}

#[test]
fn only_three_protocols_are_looked_at() {
    let long = "1234567890123456789012345";
    let list = format!("a, b, c, {}", long);
    assert!(header_fits(&fields(&[("Sec-WebSocket-Protocol", list.as_bytes())])));
    let list = format!("a, b, {}", long);
    assert!(!header_fits(&fields(&[("Sec-WebSocket-Protocol", list.as_bytes())])));
    assert!(!header_fits(&fields(&[
        ("Sec-WebSocket-Protocol", b"a"),
        ("Sec-WebSocket-Protocol", long.as_bytes()),
    ])));
    assert!(header_fits(&fields(&[
        ("Sec-WebSocket-Protocol", b"a, b"),
        ("Sec-WebSocket-Protocol", b"c"),
        ("Sec-WebSocket-Protocol", long.as_bytes()),
    ])));
    assert!(header_fits(&fields(&[("Sec-WebSocket-Protocol", b", , ")])));
}

#[test]
fn what_follows_an_unreadable_field_is_not_read() {
    assert!(header_fits(&fields(&[
        ("Upgrade", &[0xff]),
        ("Sec-WebSocket-Key", &[b'k'; 25]),
    ])));
    assert!(!header_fits(&fields(&[
        ("Sec-WebSocket-Key", &[b'k'; 25]),
        ("Upgrade", &[0xff]),
    ])));
    assert!(!header_fits(&fields(&[
        ("Cookie", &[0xff]),
        ("Sec-WebSocket-Key", &[b'k'; 25]),
    ])));
}

#[test]
fn a_parsed_request_is_answered_from_its_fields() {
    let parsed = HttpRequest {
        consumed: 40,
        path: Some("/audio".to_string()),
        headers: fields(&[("Upgrade", b"websocket"), ("Sec-WebSocket-Key", b"key")]),
    };
    match answer_request(Ok(Some(parsed)), 45) {
        Ok(UpgradeStep::Accept { key, path, cursor }) => {
            assert_eq!(key, "key");
            assert_eq!(path, "/audio");
            assert_eq!(cursor, 5);
        }
        _ => panic!("the request was not accepted"),
    }
    assert!(matches!(answer_request(Ok(None), 7), Ok(UpgradeStep::ReadMore { cursor: 7 })));
    assert!(matches!(
        answer_request(Err(httparse::Error::NewLine), 7),
        Err(UpgradeError::HttpParse(httparse::Error::NewLine))
    ));
}
