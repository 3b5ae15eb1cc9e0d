use esp32s3_i2s_mic_idf::subscribers::{
    count_frame, on_heard, on_incoming, on_queued, open_connection, pdm_ws_stream,
    ActiveSubscribers, Forward, Heard, Incoming, PdmStarted, Reply, SinkStep, SubscriberGuard,
};
use esp32s3_i2s_mic_idf::frame_pool::{acquire_slot, init_slots, make_frame, release_slot};

#[test]
fn guards_count_subscribers_in_and_out() {
    let mut active = ActiveSubscribers::new();
    assert_eq!(active.count(), 0);
    let a = SubscriberGuard::new(&mut active);
    let b = SubscriberGuard::new(&mut active);
    assert_eq!(active.count(), 2);
    a.drop(&mut active);
    assert_eq!(active.count(), 1);
    b.drop(&mut active);
    assert_eq!(active.count(), 0);
}

#[test]
fn the_first_subscriber_starts_capture_and_no_other() {
    let mut active = ActiveSubscribers::new();
    let mut started = PdmStarted::new();
    let (a, start) = open_connection(&mut active, &mut started);
    assert!(start);
    let (_b, start) = open_connection(&mut active, &mut started);
    assert!(!start);
    a.drop(&mut active);
    _b.drop(&mut active);
    let (_c, start) = open_connection(&mut active, &mut started);
    assert!(!start);
    assert!(!started.start_without_network());
}

#[test]
fn a_second_subscriber_does_not_start_capture() {
    let mut active = ActiveSubscribers::new();
    let _a = SubscriberGuard::new(&mut active);
    let mut started = PdmStarted::new();
    let (b, start) = open_connection(&mut active, &mut started);
    assert!(!start);
    b.drop(&mut active);
    assert!(started.start_for_subscriber(&active));
}

#[test]
fn without_a_network_capture_starts_once() {
    let mut started = PdmStarted::new();
    assert!(started.start_without_network());
    assert!(!started.start_without_network());
}

#[test]
fn nothing_is_sent_before_there_is_a_channel() {
    let mut pool = init_slots();
    let mut active = ActiveSubscribers::new();
    let _guard = SubscriberGuard::new(&mut active);
    let (step, reported) = pdm_ws_stream(false, &active, &mut pool, &[1, 2, 3]);
    assert!(matches!(step, SinkStep::NoSender));
    assert_eq!(reported, 0);
    assert_eq!(acquire_slot(&mut pool, 0), Some(0));
}

#[test]
fn nothing_is_made_while_nobody_listens() {
    let mut pool = init_slots();
    let active = ActiveSubscribers::new();
    let (step, reported) = pdm_ws_stream(true, &active, &mut pool, &[1, 2, 3]);
    assert!(matches!(step, SinkStep::NoSubscribers));
    assert_eq!(reported, 6);
    assert_eq!(acquire_slot(&mut pool, 0), Some(0));
}

#[test]
fn a_frame_is_made_for_those_who_listen() {
    let mut pool = init_slots();
    let mut active = ActiveSubscribers::new();
    let _guard = SubscriberGuard::new(&mut active);
    let (step, reported) = pdm_ws_stream(true, &active, &mut pool, &[1, 2, 3]);
    assert_eq!(reported, 6);
    match step {
        SinkStep::Send(frame) => assert_eq!(frame.as_slice(&pool), &[2, 0, 4, 0, 6, 0]),
        _ => panic!("no frame was made"),
    }
}

#[test]
fn samples_that_find_no_slot_are_reported_as_taken() {
    let mut pool = init_slots();
    let mut active = ActiveSubscribers::new();
    let _guard = SubscriberGuard::new(&mut active);
    let (step, reported) = pdm_ws_stream(true, &active, &mut pool, &[0; 512]);
    assert!(matches!(step, SinkStep::PoolExhausted));
    assert_eq!(reported, 1024);
    while acquire_slot(&mut pool, 0).is_some() {}
    let (step, reported) = pdm_ws_stream(true, &active, &mut pool, &[0; 3]);
    assert!(matches!(step, SinkStep::PoolExhausted));
    assert_eq!(reported, 6);
}

#[test]
fn only_sent_frames_count() {
    assert_eq!(count_frame(4, true), 5);
    assert_eq!(count_frame(4, false), 4);
    assert_eq!(count_frame(usize::MAX, true), 0);
}

#[test]
fn a_ping_is_answered_with_its_payload() {
    match on_incoming(Incoming::Ping(vec![1, 2, 3])) {
        Reply::Pong(echo) => assert_eq!(echo, vec![1, 2, 3]),
        _ => panic!("no pong"),
    }
    assert!(matches!(on_incoming(Incoming::Other), Reply::Ignore));
    assert!(matches!(on_incoming(Incoming::Close), Reply::Stop));
    assert!(matches!(on_incoming(Incoming::Failed), Reply::Stop));
    assert!(matches!(on_incoming(Incoming::Ended), Reply::Stop));
}

#[test]
fn a_heard_frame_is_held_until_its_message_is_queued() {
    let mut pool = init_slots();
    for queued in [true, false] {
        let frame = make_frame(&mut pool, &[21]).unwrap();
        let held = match on_heard(Heard::Frame(frame), &pool) {
            Forward::Binary(payload, held) => {
                assert_eq!(payload, vec![42, 0]);
                held
            }
            _ => panic!("nothing was forwarded"),
        };
        assert_eq!(held.as_slice(&pool), &[42, 0]);
        assert_eq!(acquire_slot(&mut pool, 0), Some(1));
        release_slot(&mut pool, 1);
        let step = on_queued(held, queued, &mut pool);
        assert_eq!(matches!(step, Forward::Next), queued);
        assert_eq!(matches!(step, Forward::Stop), !queued);
        assert_eq!(acquire_slot(&mut pool, 0), Some(0));
        release_slot(&mut pool, 0);
    }
}

#[test]
fn a_lagging_connection_carries_on() {
    let pool = init_slots();
    assert!(matches!(on_heard(Heard::Lagged(12), &pool), Forward::Next));
    assert!(matches!(on_heard(Heard::Closed, &pool), Forward::Stop));
}

#[test]
fn the_count_is_that_of_the_live_guards() {
    let mut active = ActiveSubscribers::new();
    let mut live = Vec::new();
    for step in 0..40usize {
        if step % 5 < 3 {
            live.push(SubscriberGuard::new(&mut active));
        } else if let Some(guard) = live.pop() {
            guard.drop(&mut active);
        }
        assert_eq!(active.count(), live.len());
    }
    assert_eq!(active.count(), 8);
}
