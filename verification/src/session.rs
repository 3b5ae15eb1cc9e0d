//! One client of the websocket server, from its first byte to the end of its connection.

use vstd::prelude::*;
use vstd::utf8::encode_utf8;

use crate::audio_queue::{frame_as_slice, frame_bytes, Frame};
use crate::capture::{
    buffer_after, law_both_streams_send_the_same, law_forwarded_bytes_hold_the_halved_read,
    StreamEvent, SAMPLE_BYTES,
};
use crate::handshake::{
    accept_response, accept_token, any_unreadable, binary_frame, declared_len, fields_fit,
    frame_body, law_binary_frame_overhead, law_binary_frame_round_trip,
    law_message_is_header_and_payload, server_accept, wants_websocket, websocket_key,
    write_binary, HeaderError,
};
use crate::http::{http_request, MAX_HEADERS};
use crate::pcm::{
    attenuated_prefix, decoded, encoded, law_attenuation_never_clips, law_encoding_round_trip,
};
use crate::upgrade::{
    read_any_upgrade, request_fits, upgrade_outcome, UpgradeError, UpgradeOutcome, UpgradeStep,
    WS_PATH,
};

verus! {

/// Size of the buffer that responses and frames are written to.
pub const WRITE_BUFFER_BYTES: usize = 4096;

/// Where a session stands.
#[derive(Debug, Clone, Copy, PartialEq, Eq, Structural)]
pub enum SessionState {
    /// A read of the request is under way, behind that many bytes.
    Reading(usize),
    /// The response that opens the websocket is being written.
    Greeting,
    /// The response to a refused request is being written.
    Refusing,
    /// The websocket is open and waits for audio.
    Waiting,
    /// A frame of audio is being written.
    Sending,
    /// The connection is over.
    Ended,
}

/// What happened on the connection.
pub enum SessionEvent {
    /// A read brought that many bytes, or none.
    Read(usize),
    /// A read failed.
    ReadFailed,
    /// The write is complete.
    Written,
    /// The write failed.
    WriteFailed,
    /// The queue gave a frame.
    Frame(Frame),
    /// The queue gave nothing for a while.
    Timeout,
    /// The queue will give nothing more.
    ProducerGone,
}

/// How a connection ends.
pub enum SessionEnd {
    /// A request that gets no websocket was answered.
    Answered,
    /// The request could not be answered.
    Upgrade(UpgradeError),
    /// The handshake is longer than there is room for.
    HandshakeTooLong,
    /// The response that opens the websocket could not be made.
    Handshake(embedded_websocket::Error),
    /// A frame could not be made.
    Encode(embedded_websocket::Error),
    /// A read failed.
    ReadFailed,
    /// A write failed.
    WriteFailed,
    /// There is no more audio.
    ProducerGone,
}

/// What to do next on the connection.
pub enum SessionAction {
    /// Read behind that many bytes of the buffer.
    Read(usize),
    /// Write these bytes.
    Write(Vec<u8>),
    /// Empty the queue of audio, then wait for a frame.
    DrainAndWait,
    /// Wait for a frame.
    Wait,
    /// Close the connection.
    End(SessionEnd),
}

/// The event can happen in the state: a read returns while one is under way, a write
/// likewise, and the queue is asked only while the session waits.
pub open spec fn may_happen(state: SessionState, event: SessionEvent, buf_len: nat) -> bool {
    match state {
        SessionState::Reading(cursor) => match event {
            SessionEvent::Read(n) => cursor + n <= buf_len,
            SessionEvent::ReadFailed => true,
            _ => false,
        },
        SessionState::Greeting | SessionState::Refusing | SessionState::Sending => event is Written
            || event is WriteFailed,
        SessionState::Waiting => event is Frame || event is Timeout || event is ProducerGone,
        SessionState::Ended => false,
    }
}

/// The action is to write these bytes.
pub open spec fn writes(action: SessionAction, bytes: Seq<u8>) -> bool {
    action matches SessionAction::Write(out) && out@ == bytes
}

/// What follows a read that left `buf` in use up to `cursor + n`.
pub open spec fn after_read(
    buf: Seq<u8>,
    cursor: int,
    n: int,
    state: SessionState,
    action: SessionAction,
) -> bool {
    let parsed = http_request(buf.take(cursor + n), MAX_HEADERS as nat);
    if n == 0 {
        state == SessionState::Ended && action matches SessionAction::End(
            SessionEnd::Upgrade(UpgradeError::ConnectionClosed),
        )
    } else if !request_fits(parsed) {
        state == SessionState::Ended && action matches SessionAction::End(
            SessionEnd::HandshakeTooLong,
        )
    } else {
        match upgrade_outcome(parsed) {
            UpgradeOutcome::Incomplete => state == SessionState::Reading((cursor + n) as usize)
                && action == SessionAction::Read((cursor + n) as usize),
            UpgradeOutcome::NotHttp(e) => state == SessionState::Ended && action
                == SessionAction::End(SessionEnd::Upgrade(UpgradeError::HttpParse(e))),
            UpgradeOutcome::BadHeader(e) => state == SessionState::Ended && action
                == SessionAction::End(SessionEnd::Upgrade(UpgradeError::InvalidHeader(e))),
            UpgradeOutcome::Accepted(key, _) => state == SessionState::Greeting && writes(
                action,
                encode_utf8(accept_response(accept_token(key))),
            ),
            UpgradeOutcome::Refused(text) => state == SessionState::Refusing && writes(
                action,
                encode_utf8(text),
            ),
        }
    }
}

/// What follows an event.
pub open spec fn follows(
    before: SessionState,
    event: SessionEvent,
    buf: Seq<u8>,
    state: SessionState,
    action: SessionAction,
) -> bool {
    match event {
        SessionEvent::Read(n) => after_read(buf, before->Reading_0 as int, n as int, state, action),
        SessionEvent::ReadFailed => state == SessionState::Ended
            && action matches SessionAction::End(SessionEnd::ReadFailed),
        SessionEvent::WriteFailed => state == SessionState::Ended
            && action matches SessionAction::End(SessionEnd::WriteFailed),
        SessionEvent::Written => match before {
            SessionState::Greeting => state == SessionState::Waiting
                && action is DrainAndWait,
            SessionState::Refusing => state == SessionState::Ended
                && action matches SessionAction::End(SessionEnd::Answered),
            _ => state == SessionState::Waiting && action is Wait,
        },
        SessionEvent::Frame(frame) => state == SessionState::Sending && writes(
            action,
            binary_frame(frame_bytes(frame)),
        ),
        SessionEvent::Timeout => state == SessionState::Waiting && action is Wait,
        SessionEvent::ProducerGone => state == SessionState::Ended
            && action matches SessionAction::End(SessionEnd::ProducerGone),
    }
}

/// One client's connection.
pub struct Session {
    state: SessionState,
}

impl View for Session {
    type V = SessionState;

    closed spec fn view(&self) -> SessionState {
        self.state
    }
}

impl Session {
    /// A connection that nothing was read from; a read comes first.
    pub fn new() -> (r: Session)
        ensures
            r@ == SessionState::Reading(0),
    {
        Session { state: SessionState::Reading(0) }
    }

    /// Where the session stands.
    pub fn state(&self) -> (r: SessionState)
        ensures
            r == self@,
    {
        self.state
    }

    /// Takes a read of the request in.
    fn on_read(&mut self, cursor: usize, n: usize, read_buf: &[u8]) -> (action: SessionAction)
        requires
            cursor + n <= read_buf@.len(),
        ensures
            after_read(read_buf@, cursor as int, n as int, final(self)@, action),
    {
        let step: Result<UpgradeStep, UpgradeError> = match read_any_upgrade(read_buf, cursor, n) {
            Some(step) => step,
            None => {
                self.state = SessionState::Ended;
                return SessionAction::End(SessionEnd::HandshakeTooLong);
            },
        };
        match step {
            Err(e) => {
                self.state = SessionState::Ended;
                SessionAction::End(SessionEnd::Upgrade(e))
            },
            Ok(UpgradeStep::ReadMore { cursor }) => {
                self.state = SessionState::Reading(cursor);
                SessionAction::Read(cursor)
            },
            Ok(UpgradeStep::Refuse { response, .. }) => {
                self.state = SessionState::Refusing;
                SessionAction::Write(response.as_str().as_bytes_vec())
            },
            Ok(UpgradeStep::Accept { key, .. }) => {
                match server_accept(key.as_str(), WRITE_BUFFER_BYTES) {
                    Ok(response) => {
                        self.state = SessionState::Greeting;
                        SessionAction::Write(response)
                    },
                    Err(e) => {
                        self.state = SessionState::Ended;
                        SessionAction::End(SessionEnd::Handshake(e))
                    },
                }
            },
        }
    }

    /// Takes a frame from the queue in.
    fn on_frame(&mut self, frame: &Frame) -> (action: SessionAction)
        ensures
            final(self)@ == SessionState::Sending,
            writes(action, binary_frame(frame_bytes(*frame))),
    {
        let payload: &[u8] = frame_as_slice(frame);
        proof {
            law_binary_frame_overhead(payload@);
        }
        match write_binary(payload, WRITE_BUFFER_BYTES) {
            Ok(bytes) => {
                self.state = SessionState::Sending;
                SessionAction::Write(bytes)
            },
            Err(e) => {
                self.state = SessionState::Ended;
                SessionAction::End(SessionEnd::Encode(e))
            },
        }
    }

    /// Moves the session on. `read_buf` is the buffer that the request is read into.
    pub fn handle_client(&mut self, event: SessionEvent, read_buf: &[u8]) -> (action: SessionAction)
        requires
            may_happen(old(self)@, event, read_buf@.len()),
        ensures
            follows(old(self)@, event, read_buf@, final(self)@, action),
    {
        match event {
            SessionEvent::Read(n) => {
                match self.state {
                    SessionState::Reading(cursor) => self.on_read(cursor, n, read_buf),
                    _ => SessionAction::End(SessionEnd::ReadFailed),
                }
            },
            SessionEvent::ReadFailed => {
                self.state = SessionState::Ended;
                SessionAction::End(SessionEnd::ReadFailed)
            },
            SessionEvent::WriteFailed => {
                self.state = SessionState::Ended;
                SessionAction::End(SessionEnd::WriteFailed)
            },
            SessionEvent::Written => {
                match self.state {
                    SessionState::Greeting => {
                        self.state = SessionState::Waiting;
                        SessionAction::DrainAndWait
                    },
                    SessionState::Refusing => {
                        self.state = SessionState::Ended;
                        SessionAction::End(SessionEnd::Answered)
                    },
                    _ => {
                        self.state = SessionState::Waiting;
                        SessionAction::Wait
                    },
                }
            },
            SessionEvent::Frame(frame) => self.on_frame(&frame),
            SessionEvent::Timeout => {
                self.state = SessionState::Waiting;
                SessionAction::Wait
            },
            SessionEvent::ProducerGone => {
                self.state = SessionState::Ended;
                SessionAction::End(SessionEnd::ProducerGone)
            },
        }
    }
}

/// One step of a session: what happened, what the buffer held, and what followed.
pub ghost struct SessionStep {
    pub event: SessionEvent,
    pub buf: Seq<u8>,
    pub state: SessionState,
    pub action: SessionAction,
}

/// The state before step `i` of a new session that takes these steps.
pub open spec fn state_before(steps: Seq<SessionStep>, i: int) -> SessionState {
    if i == 0 {
        SessionState::Reading(0)
    } else {
        steps[i - 1].state
    }
}

/// The steps are those of a session, from its start.
pub open spec fn is_session(steps: Seq<SessionStep>) -> bool {
    forall|i: int|
        #![trigger steps[i]]
        0 <= i < steps.len() ==> {
            &&& may_happen(state_before(steps, i), steps[i].event, steps[i].buf.len())
            &&& follows(
                state_before(steps, i),
                steps[i].event,
                steps[i].buf,
                steps[i].state,
                steps[i].action,
            )
        }
}

/// The bytes of a read, together with those before it, asked for a websocket under the
/// path of the audio stream.
pub open spec fn was_accepted(steps: Seq<SessionStep>, i: int) -> bool {
    &&& steps[i].event is Read
    &&& state_before(steps, i) is Reading
    &&& upgrade_outcome(
        http_request(
            steps[i].buf.take(state_before(steps, i)->Reading_0 + steps[i].event->Read_0),
            MAX_HEADERS as nat,
        ),
    ) matches UpgradeOutcome::Accepted(_, path) && path == WS_PATH@
}

/// Audio is sent only on a connection that asked for it: before the first frame, a
/// request for a websocket under the path of the stream was read, the response that
/// opens it was written, and the queue was emptied of what was captured earlier.
pub proof fn law_audio_only_after_the_handshake(steps: Seq<SessionStep>, k: int)
    requires
        is_session(steps),
        0 <= k < steps.len(),
        steps[k].event is Frame,
    ensures
        exists|i: int|
            #![trigger steps[i]]
            0 <= i && i + 1 < k && was_accepted(steps, i) && steps[i + 1].event is Written
                && steps[i + 1].action is DrainAndWait,
{
    assert(may_happen(state_before(steps, k), steps[k].event, steps[k].buf.len()));
    lemma_waiting_was_opened(steps, k);
}

/// A session that waits for audio was opened before.
proof fn lemma_waiting_was_opened(steps: Seq<SessionStep>, k: int)
    requires
        is_session(steps),
        0 <= k <= steps.len(),
        state_before(steps, k) == SessionState::Waiting || state_before(steps, k)
            == SessionState::Sending,
    ensures
        exists|i: int|
            #![trigger steps[i]]
            0 <= i && i + 1 < k && was_accepted(steps, i) && steps[i + 1].event is Written
                && steps[i + 1].action is DrainAndWait,
    decreases k,
{
    let last = steps[k - 1];
    let before = state_before(steps, k - 1);
    assert(may_happen(before, last.event, last.buf.len()));
    assert(follows(before, last.event, last.buf, last.state, last.action));
    if before == SessionState::Waiting || before == SessionState::Sending {
        lemma_waiting_was_opened(steps, k - 1);
    } else {
        assert(before == SessionState::Greeting);
        let first = steps[k - 2];
        let start = state_before(steps, k - 2);
        assert(may_happen(start, first.event, first.buf.len()));
        assert(follows(start, first.event, first.buf, first.state, first.action));
        assert(was_accepted(steps, k - 2));
        assert(steps[k - 2 + 1] == last);
    }
}

/// A connection that ended does nothing more.
pub proof fn law_nothing_after_the_end(steps: Seq<SessionStep>, k: int)
    requires
        is_session(steps),
        0 <= k < steps.len(),
        steps[k].action is End,
    ensures
        k == steps.len() - 1,
{
    assert(follows(
        state_before(steps, k),
        steps[k].event,
        steps[k].buf,
        steps[k].state,
        steps[k].action,
    ));
    assert(steps[k].state == SessionState::Ended);
    if k + 1 < steps.len() {
        assert(state_before(steps, k + 1) == SessionState::Ended);
        assert(may_happen(state_before(steps, k + 1), steps[k + 1].event, steps[k + 1].buf.len()));
    }
}

/// A client hears every sample of a read at half its level: the frame that is sent for
/// the bytes of the read declares their length, and what follows its header decodes to
/// the samples as the microphone gave them, each halved and rounded down.
pub proof fn law_client_hears_each_read(buf: Seq<i16>, num_samples: int, i: int)
    requires
        0 <= i < num_samples <= buf.len(),
        SAMPLE_BYTES * num_samples <= u64::MAX,
    ensures
        ({
            let raw = encoded(attenuated_prefix(buf, num_samples)).take(SAMPLE_BYTES * num_samples);
            let heard = decoded(frame_body(binary_frame(raw)));
            &&& declared_len(binary_frame(raw)) == SAMPLE_BYTES * num_samples
            &&& heard.len() == num_samples
            &&& heard[i] == buf[i] as int / 2
        }),
{
    let quiet = attenuated_prefix(buf, num_samples).take(num_samples);
    law_both_streams_send_the_same(buf, num_samples);
    law_encoding_round_trip(quiet);
    law_binary_frame_round_trip(encoded(quiet));
    law_attenuation_never_clips(buf[i]);
}

/// A request for the stream is always greeted: a session that is reading and takes in bytes
/// after which a complete and readable request that fits asks for a websocket under the
/// path of the stream writes the response that opens it, for the key of that request,
/// however long the request is and however it was split.
pub proof fn law_request_for_the_stream_is_greeted(
    cursor: usize,
    n: usize,
    buf: Seq<u8>,
    state: SessionState,
    action: SessionAction,
    request: (nat, Option<Seq<char>>, Seq<(Seq<char>, Seq<u8>)>),
)
    requires
        n > 0,
        cursor + n <= buf.len(),
        follows(SessionState::Reading(cursor), SessionEvent::Read(n), buf, state, action),
        http_request(buf.take(cursor + n), 16) == Ok::<
            Option<(nat, Option<Seq<char>>, Seq<(Seq<char>, Seq<u8>)>)>,
            httparse::Error,
        >(Some(request)),
        fields_fit(request.2),
        !any_unreadable(request.2),
        wants_websocket(request.2),
        request.1 == Some("/audio"@),
    ensures
        state == SessionState::Greeting,
        action matches SessionAction::Write(out) && out@ == encode_utf8(
            "HTTP/1.1 101 Switching Protocols\r\nConnection: Upgrade\r\nUpgrade: websocket\r\nSec-WebSocket-Accept: "@
                + accept_token(websocket_key(request.2)) + "\r\n\r\n"@,
        ),
{
}

/// Every other complete and readable request that fits is answered with a response, which
/// is written whole.
pub proof fn law_other_requests_are_answered(
    cursor: usize,
    n: usize,
    buf: Seq<u8>,
    state: SessionState,
    action: SessionAction,
    request: (nat, Option<Seq<char>>, Seq<(Seq<char>, Seq<u8>)>),
)
    requires
        n > 0,
        cursor + n <= buf.len(),
        follows(SessionState::Reading(cursor), SessionEvent::Read(n), buf, state, action),
        http_request(buf.take(cursor + n), 16) == Ok::<
            Option<(nat, Option<Seq<char>>, Seq<(Seq<char>, Seq<u8>)>)>,
            httparse::Error,
        >(Some(request)),
        fields_fit(request.2),
        !any_unreadable(request.2),
        !wants_websocket(request.2) || request.1 != Some("/audio"@),
    ensures
        state == SessionState::Refusing,
        upgrade_outcome(Ok(Some(request))) matches UpgradeOutcome::Refused(text) && (
        action matches SessionAction::Write(out) && out@ == encode_utf8(text)),
{
}

/// While the request is not complete, the session reads on behind all bytes that it has;
/// when it is no HTTP, is unreadable or does not fit, the session ends and says which.
pub proof fn law_unfinished_requests_are_read_on(
    cursor: usize,
    n: usize,
    buf: Seq<u8>,
    state: SessionState,
    action: SessionAction,
)
    requires
        n > 0,
        cursor + n <= buf.len() <= usize::MAX,
        follows(SessionState::Reading(cursor), SessionEvent::Read(n), buf, state, action),
    ensures
        match http_request(buf.take(cursor + n), 16) {
            Ok(None) => state == SessionState::Reading((cursor + n) as usize) && action
                == SessionAction::Read((cursor + n) as usize),
            Err(e) => state == SessionState::Ended && action == SessionAction::End(
                SessionEnd::Upgrade(UpgradeError::HttpParse(e)),
            ),
            Ok(Some(request)) => {
                &&& !fields_fit(request.2) ==> state == SessionState::Ended && action
                    == SessionAction::End(SessionEnd::HandshakeTooLong)
                &&& fields_fit(request.2) && any_unreadable(request.2) ==> state
                    == SessionState::Ended && action == SessionAction::End(
                    SessionEnd::Upgrade(UpgradeError::InvalidHeader(HeaderError::NotUtf8)),
                )
            },
        },
{
}

/// A session ends as closed exactly when a read brought nothing, as failed exactly when a
/// read or a write failed, for want of audio exactly when the producer is gone, and as too
/// long only for a complete request that does not fit.
pub proof fn law_each_end_has_its_cause(
    before: SessionState,
    event: SessionEvent,
    buf: Seq<u8>,
    state: SessionState,
    action: SessionAction,
)
    requires
        may_happen(before, event, buf.len()),
        follows(before, event, buf, state, action),
    ensures
        action == SessionAction::End(SessionEnd::Upgrade(UpgradeError::ConnectionClosed))
            <==> event == SessionEvent::Read(0),
        action == SessionAction::End(SessionEnd::ReadFailed) <==> event is ReadFailed,
        action == SessionAction::End(SessionEnd::WriteFailed) <==> event is WriteFailed,
        action == SessionAction::End(SessionEnd::ProducerGone) <==> event is ProducerGone,
        action == SessionAction::End(SessionEnd::Answered) <==> before is Refusing
            && event is Written,
        action == SessionAction::End(SessionEnd::HandshakeTooLong) ==> (
        http_request(buf.take(before->Reading_0 + event->Read_0), 16) matches Ok(Some(request))
            && !fields_fit(request.2)),
        action matches SessionAction::End(end) ==> end !is Handshake && end !is Encode,
        action is End <==> state == SessionState::Ended,
{
}

/// A session that was opened empties the queue once and then waits; it goes on waiting
/// while nothing comes and after each message that was written.
pub proof fn law_open_sessions_go_on_waiting(
    before: SessionState,
    event: SessionEvent,
    buf: Seq<u8>,
    state: SessionState,
    action: SessionAction,
)
    requires
        may_happen(before, event, buf.len()),
        follows(before, event, buf, state, action),
    ensures
        before is Greeting && event is Written ==> state == SessionState::Waiting
            && action is DrainAndWait,
        before is Sending && event is Written ==> state == SessionState::Waiting && action is Wait,
        before is Waiting && event is Timeout ==> state == SessionState::Waiting && action is Wait,
{
}

/// Each state takes every event that the action before it can bring: a read any number of
/// bytes that fits the buffer, or its failure; a write its end or its failure; waiting a
/// frame, nothing, or the end of the audio. A session that ended takes none.
pub proof fn law_every_outcome_of_an_action_is_taken(
    cursor: usize,
    n: usize,
    frame: Frame,
    event: SessionEvent,
    buf_len: nat,
)
    ensures
        may_happen(SessionState::Reading(cursor), SessionEvent::Read(n), buf_len) <==> cursor + n
            <= buf_len,
        may_happen(SessionState::Reading(cursor), SessionEvent::ReadFailed, buf_len),
        may_happen(SessionState::Greeting, event, buf_len) <==> event is Written
            || event is WriteFailed,
        may_happen(SessionState::Refusing, event, buf_len) <==> event is Written
            || event is WriteFailed,
        may_happen(SessionState::Sending, event, buf_len) <==> event is Written
            || event is WriteFailed,
        may_happen(SessionState::Waiting, SessionEvent::Frame(frame), buf_len),
        may_happen(SessionState::Waiting, SessionEvent::Timeout, buf_len),
        may_happen(SessionState::Waiting, SessionEvent::ProducerGone, buf_len),
        !may_happen(SessionState::Ended, event, buf_len),
{
}

/// A frame is always sent, whatever it holds: what is written begins with the mark of a
/// whole binary message and the frame's length and goes on with exactly the frame's bytes.
pub proof fn law_each_frame_is_sent(
    frame: Frame,
    buf: Seq<u8>,
    state: SessionState,
    action: SessionAction,
)
    requires
        follows(SessionState::Waiting, SessionEvent::Frame(frame), buf, state, action),
        frame_bytes(frame).len() <= 1024,
    ensures
        state == SessionState::Sending,
        action matches SessionAction::Write(out) && is_message(out@, frame_bytes(frame)),
{
    law_message_is_header_and_payload(frame_bytes(frame));
    let payload = frame_bytes(frame);
    if payload.len() < 126 {
        assert((seq![0x82u8, payload.len() as u8] + payload).skip(2) =~= payload);
    } else {
        assert((seq![
            0x82u8,
            126u8,
            (payload.len() / 256) as u8,
            (payload.len() % 256) as u8,
        ] + payload).skip(4) =~= payload);
    }
}

/// `out` is a whole binary message on the wire that carries `payload`: its header declares
/// the length and its body is the payload. The length stands in one byte when it is below
/// 126, and otherwise behind that mark in two, the high one first.
pub open spec fn is_message(out: Seq<u8>, payload: Seq<u8>) -> bool {
    &&& out.len() >= 2
    &&& out[0] == 0x82
    &&& if payload.len() < 126 {
        &&& out[1] == payload.len()
        &&& out.skip(2) == payload
    } else {
        &&& out.len() >= 4
        &&& out[1] == 126
        &&& 256 * out[2] + out[3] == payload.len()
        &&& out.skip(4) == payload
    }
}

/// `out` is the response that opens a websocket, for some key.
pub open spec fn is_greeting(out: Seq<u8>) -> bool {
    exists|key: Seq<char>|
        out == encode_utf8(
            "HTTP/1.1 101 Switching Protocols\r\nConnection: Upgrade\r\nUpgrade: websocket\r\nSec-WebSocket-Accept: "@
                + #[trigger] accept_token(key) + "\r\n\r\n"@,
        )
}

/// Everything that is written in these steps, in order.
pub open spec fn all_written(steps: Seq<SessionStep>) -> Seq<Seq<u8>>
    decreases steps.len(),
{
    if steps.len() == 0 {
        Seq::empty()
    } else {
        match steps.last().action {
            SessionAction::Write(out) => all_written(steps.drop_last()).push(out@),
            _ => all_written(steps.drop_last()),
        }
    }
}

/// The frames that come in these steps, in order.
pub open spec fn all_frames(steps: Seq<SessionStep>) -> Seq<Seq<u8>>
    decreases steps.len(),
{
    if steps.len() == 0 {
        Seq::empty()
    } else {
        match steps.last().event {
            SessionEvent::Frame(frame) => all_frames(steps.drop_last()).push(frame_bytes(frame)),
            _ => all_frames(steps.drop_last()),
        }
    }
}

/// Over a whole session, the greeting is written first and then a message for each frame
/// that came, in the order in which they came, none left out and nothing else between
/// them. Without a frame, at most one response is written.
pub proof fn law_every_frame_is_sent_in_order(steps: Seq<SessionStep>)
    requires
        is_session(steps),
        forall|i: int|
            0 <= i < steps.len() ==> ((#[trigger] steps[i]).event matches SessionEvent::Frame(frame)
                ==> frame_bytes(frame).len() <= 1024),
    ensures
        all_frames(steps).len() == 0 ==> all_written(steps).len() <= 1,
        all_frames(steps).len() > 0 ==> all_written(steps).len() == all_frames(steps).len() + 1,
        all_frames(steps).len() > 0 ==> is_greeting(all_written(steps)[0]),
        forall|j: int|
            0 <= j < all_frames(steps).len() ==> is_message(
                all_written(steps)[j + 1],
                #[trigger] all_frames(steps)[j],
            ),
{
    lemma_written_so_far(steps);
}

/// What was written and what came, by where the session stands.
proof fn lemma_written_so_far(steps: Seq<SessionStep>)
    requires
        is_session(steps),
        forall|i: int|
            0 <= i < steps.len() ==> ((#[trigger] steps[i]).event matches SessionEvent::Frame(frame)
                ==> frame_bytes(frame).len() <= 1024),
    ensures
        match state_before(steps, steps.len() as int) {
            SessionState::Reading(_) => all_written(steps).len() == 0 && all_frames(steps).len()
                == 0,
            SessionState::Greeting => all_written(steps).len() == 1 && all_frames(steps).len() == 0
                && is_greeting(all_written(steps)[0]),
            SessionState::Refusing => all_written(steps).len() == 1 && all_frames(steps).len() == 0,
            SessionState::Waiting | SessionState::Sending => all_written(steps).len() == all_frames(
                steps,
            ).len() + 1 && is_greeting(all_written(steps)[0]),
            SessionState::Ended => all_frames(steps).len() == 0 && all_written(steps).len() <= 1
                || all_written(steps).len() == all_frames(steps).len() + 1 && is_greeting(
                all_written(steps)[0],
            ),
        },
        forall|j: int|
            0 <= j < all_frames(steps).len() ==> is_message(
                all_written(steps)[j + 1],
                #[trigger] all_frames(steps)[j],
            ),
    decreases steps.len(),
{
    if steps.len() > 0 {
        let head = steps.drop_last();
        let k = steps.len() - 1;
        let last = steps[k];
        assert forall|i: int| #![trigger head[i]] 0 <= i < head.len() implies {
            &&& may_happen(state_before(head, i), head[i].event, head[i].buf.len())
            &&& follows(
                state_before(head, i),
                head[i].event,
                head[i].buf,
                head[i].state,
                head[i].action,
            )
        } by {
            assert(head[i] == steps[i]);
            assert(state_before(head, i) == state_before(steps, i));
        }
        assert forall|i: int| 0 <= i < head.len() implies ((
        #[trigger] head[i]).event matches SessionEvent::Frame(frame) ==> frame_bytes(frame).len()
            <= 1024) by {
            assert(head[i] == steps[i]);
        }
        lemma_written_so_far(head);
        let before = state_before(steps, k);
        assert(state_before(head, k) == before);
        assert(may_happen(before, last.event, last.buf.len()));
        assert(follows(before, last.event, last.buf, last.state, last.action));
        assert(steps.last() == last);
        match last.event {
            SessionEvent::Frame(frame) => {
                law_each_frame_is_sent(frame, last.buf, last.state, last.action);
                assert forall|j: int| 0 <= j < all_frames(steps).len() implies is_message(
                    all_written(steps)[j + 1],
                    #[trigger] all_frames(steps)[j],
                ) by {
                    if j < all_frames(head).len() {
                        assert(all_frames(steps)[j] == all_frames(head)[j]);
                    }
                }
            },
            _ => {},
        }
    }
}

/// A client hears what the step leaves: the message that is sent for the bytes of a good
/// read of the microphone carries every whole sample of it at half its level, rounded down,
/// low byte first, modulo 65536.
pub proof fn law_client_hears_what_the_step_leaves(
    buf: Seq<i16>,
    num_bytes: usize,
    i: int,
)
    requires
        num_bytes <= 2 * buf.len(),
        num_bytes <= 1024,
        0 <= i < num_bytes as int / 2,
    ensures
        ({
            let after = buffer_after(StreamEvent::Read { ret: 0, num_bytes }, buf);
            let raw = encoded(after).take(num_bytes as int);
            let half = buf[i] as int / 2;
            &&& is_message(binary_frame(raw), raw)
            &&& raw.len() == num_bytes
            &&& raw[2 * i] + 256 * raw[2 * i + 1] == (if half >= 0 {
                half
            } else {
                half + 65536
            })
        }),
{
    let after = buffer_after(StreamEvent::Read { ret: 0, num_bytes }, buf);
    let raw = encoded(after).take(num_bytes as int);
    law_forwarded_bytes_hold_the_halved_read(buf, num_bytes, i);
    law_message_is_header_and_payload(raw);
    if raw.len() < 126 {
        assert((seq![0x82u8, raw.len() as u8] + raw).skip(2) =~= raw);
    } else {
        assert((seq![0x82u8, 126u8, (raw.len() / 256) as u8, (raw.len() % 256) as u8] + raw).skip(
            4,
        ) =~= raw);
    }
}

} // verus!
