use esp32s3_i2s_mic_idf::audio_queue::{AudioContext, Frame, Pushed, Taken};
use esp32s3_i2s_mic_idf::capture::{stream_pcm, RawAction, StreamEvent};
use esp32s3_i2s_mic_idf::handshake::HeaderError;
use esp32s3_i2s_mic_idf::http::simple_response;
use esp32s3_i2s_mic_idf::session::{
    Session, SessionAction, SessionEnd, SessionEvent, SessionState,
};
use esp32s3_i2s_mic_idf::upgrade::UpgradeError;

const UPGRADE: &[u8] = b"GET /audio HTTP/1.1\r\nHost: mic\r\nUpgrade: websocket\r\nConnection: Upgrade\r\nSec-WebSocket-Key: dGhlIHNhbXBsZSBub25jZQ==\r\nSec-WebSocket-Version: 13\r\n\r\n";

const ACCEPT: &str = "HTTP/1.1 101 Switching Protocols\r\nConnection: Upgrade\r\nUpgrade: websocket\r\nSec-WebSocket-Accept: s3pPLMBiTxaQ9kYGzzhZRbK+xOo=\r\n\r\n";

fn written(action: SessionAction) -> Vec<u8> {
    match action {
        SessionAction::Write(bytes) => bytes,
        _ => panic!("nothing to write"),
    }
}

fn frame(len: usize) -> Frame {
    let mut frame = Frame::new();
    let bytes: Vec<u8> = (0..len).map(|i| i as u8).collect();
    frame.extend_from_slice(&bytes).unwrap();
    frame
}

fn open() -> Session {
    let mut session = Session::new();
    let action = session.handle_client(SessionEvent::Read(UPGRADE.len()), UPGRADE);
    assert_eq!(written(action), ACCEPT.as_bytes());
    assert_eq!(session.state(), SessionState::Greeting);
    assert!(matches!(
        session.handle_client(SessionEvent::Written, UPGRADE),
        SessionAction::DrainAndWait
    ));
    assert_eq!(session.state(), SessionState::Waiting);
    session
}

#[test]
fn a_client_is_greeted_before_it_hears_anything() {
    open();
}

#[test]
fn a_request_may_take_several_reads() {
    let mut session = Session::new();
    let mut buf = [0u8; 4096];
    buf[..30].copy_from_slice(&UPGRADE[..30]);
    assert!(matches!(
        session.handle_client(SessionEvent::Read(30), &buf),
        SessionAction::Read(30)
    ));
    assert_eq!(session.state(), SessionState::Reading(30));
    buf[30..UPGRADE.len()].copy_from_slice(&UPGRADE[30..]);
    let action = session.handle_client(SessionEvent::Read(UPGRADE.len() - 30), &buf);
    assert_eq!(written(action), ACCEPT.as_bytes());
}

#[test]
fn audio_goes_out_in_binary_frames() {
    let mut session = open();
    let bytes = written(session.handle_client(SessionEvent::Frame(frame(5)), &[]));
    assert_eq!(bytes, vec![0x82, 5, 0, 1, 2, 3, 4]);
    assert_eq!(session.state(), SessionState::Sending);
    assert!(matches!(
        session.handle_client(SessionEvent::Written, &[]),
        SessionAction::Wait
    ));

    let bytes = written(session.handle_client(SessionEvent::Frame(frame(1024)), &[]));
    assert_eq!(bytes.len(), 1028);
    assert_eq!(bytes[..4], [0x82, 126, 4, 0]);
    assert_eq!(bytes[4..], frame(1024).as_slice()[..]);
    assert!(matches!(
        session.handle_client(SessionEvent::Written, &[]),
        SessionAction::Wait
    ));
    let bytes = written(session.handle_client(SessionEvent::Frame(frame(0)), &[]));
    assert_eq!(bytes, vec![0x82, 0]);
}

#[test]
fn short_frames_have_a_short_header() {
    let mut session = open();
    let bytes = written(session.handle_client(SessionEvent::Frame(frame(125)), &[]));
    assert_eq!(bytes[..2], [0x82, 125]);
    session.handle_client(SessionEvent::Written, &[]);
    let bytes = written(session.handle_client(SessionEvent::Frame(frame(126)), &[]));
    assert_eq!(bytes[..4], [0x82, 126, 0, 126]);
}

#[test]
fn silence_does_not_end_a_session() {
    let mut session = open();
    assert!(matches!(session.handle_client(SessionEvent::Timeout, &[]), SessionAction::Wait));
    assert_eq!(session.state(), SessionState::Waiting);
}

#[test]
fn a_refused_request_is_answered_and_closed() {
    let mut session = Session::new();
    let request = b"GET / HTTP/1.0\r\n\r\n";
    let action = session.handle_client(SessionEvent::Read(request.len()), request);
    assert_eq!(
        written(action),
        simple_response(
            200,
            "OK",
            "Websocket audio stream available at ws://<device-ip>/audio\n"
        )
        .into_bytes()
    );
    assert_eq!(session.state(), SessionState::Refusing);
    assert!(matches!(
        session.handle_client(SessionEvent::Written, request),
        SessionAction::End(SessionEnd::Answered)
    ));
    assert_eq!(session.state(), SessionState::Ended);
}

#[test]
fn a_request_that_cannot_be_answered_ends_the_session() {
    let mut session = Session::new();
    assert!(matches!(
        session.handle_client(SessionEvent::Read(0), &[]),
        SessionAction::End(SessionEnd::Upgrade(UpgradeError::ConnectionClosed))
    ));
    assert_eq!(session.state(), SessionState::Ended);

    let mut session = Session::new();
    assert!(matches!(
        session.handle_client(SessionEvent::Read(4), b"\0\0\0\0"),
        SessionAction::End(SessionEnd::Upgrade(UpgradeError::HttpParse(
            httparse::Error::Token
        )))
    ));

    let mut session = Session::new();
    let bad = b"GET /audio HTTP/1.1\r\nUpgrade: \xff\r\n\r\n";
    assert!(matches!(
        session.handle_client(SessionEvent::Read(bad.len()), bad),
        SessionAction::End(SessionEnd::Upgrade(UpgradeError::InvalidHeader(
            HeaderError::NotUtf8
        )))
    ));

    let mut session = Session::new();
    let long = b"GET /audio HTTP/1.1\r\nSec-WebSocket-Key: 1234567890123456789012345\r\n\r\n";
    assert!(matches!(
        session.handle_client(SessionEvent::Read(long.len()), long),
        SessionAction::End(SessionEnd::HandshakeTooLong)
    ));
}

#[test]
fn failures_of_the_connection_end_the_session() {
    let mut session = Session::new();
    assert!(matches!(
        session.handle_client(SessionEvent::ReadFailed, &[]),
        SessionAction::End(SessionEnd::ReadFailed)
    ));
    let mut session = open();
    session.handle_client(SessionEvent::Frame(frame(3)), &[]);
    assert!(matches!(
        session.handle_client(SessionEvent::WriteFailed, &[]),
        SessionAction::End(SessionEnd::WriteFailed)
    ));
    let mut session = open();
    assert!(matches!(
        session.handle_client(SessionEvent::ProducerGone, &[]),
        SessionAction::End(SessionEnd::ProducerGone)
    ));
    assert_eq!(session.state(), SessionState::Ended);
}

#[test]
fn a_client_hears_each_read_at_half_its_level() {
    let mut buf = [1000i16, -7, i16::MAX, i16::MIN, 55];
    let read = StreamEvent::Read { ret: 0, num_bytes: 8 };
    let raw = match stream_pcm(read, &mut buf) {
        RawAction::Forward(raw) => raw,
        _ => panic!("a good read is forwarded"),
    };
    let mut queue = AudioContext::new();
    assert_eq!(queue.push_frame(&raw), Pushed::Queued);
    let frame = match queue.try_recv() {
        Taken::Frame(frame) => frame,
        _ => panic!("the frame was queued"),
    };
    let out = written(open().handle_client(SessionEvent::Frame(frame), &[]));
    assert_eq!(&out[..2], &[0x82, 8]);
    let heard: Vec<i16> =
        out[2..].chunks(2).map(|pair| i16::from_le_bytes([pair[0], pair[1]])).collect();
    assert_eq!(heard, vec![500, -4, 16383, -16384]);
    assert_eq!(buf[4], 55);
}
