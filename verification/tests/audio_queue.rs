use esp32s3_i2s_mic_idf::audio_queue::{
    drain_audio_queue, AudioContext, Pushed, Taken, AUDIO_QUEUE_FRAMES, RAW_FRAME_BYTES,
};

fn take(queue: &mut AudioContext) -> Option<Vec<u8>> {
    match queue.try_recv() {
        Taken::Frame(frame) => Some(frame.as_slice().to_vec()),
        _ => None,
    }
}

#[test]
fn frames_come_out_as_they_went_in() {
    let mut queue = AudioContext::new();
    assert_eq!(queue.push_frame(&[1, 2, 3]), Pushed::Queued);
    assert_eq!(queue.push_frame(&[]), Pushed::Queued);
    assert_eq!(queue.push_frame(&[4]), Pushed::Queued);
    assert_eq!(take(&mut queue), Some(vec![1, 2, 3]));
    assert_eq!(take(&mut queue), Some(vec![]));
    assert_eq!(take(&mut queue), Some(vec![4]));
    assert!(matches!(queue.try_recv(), Taken::Empty));
}

#[test]
fn a_frame_may_be_one_read_long_but_not_longer() {
    let mut queue = AudioContext::new();
    assert_eq!(queue.push_frame(&[9; RAW_FRAME_BYTES]), Pushed::Queued);
    assert_eq!(queue.push_frame(&[9; RAW_FRAME_BYTES + 1]), Pushed::TooLarge);
    assert_eq!(take(&mut queue), Some(vec![9; 1024]));
    assert!(matches!(queue.try_recv(), Taken::Empty));
}

#[test]
fn a_slow_consumer_loses_the_newest_frames() {
    let mut queue = AudioContext::new();
    for i in 0..AUDIO_QUEUE_FRAMES {
        assert_eq!(queue.push_frame(&[i as u8]), Pushed::Queued);
    }
    assert_eq!(queue.push_frame(&[99]), Pushed::Full);
    for i in 0..8u8 {
        assert_eq!(take(&mut queue), Some(vec![i]));
    }
    assert!(matches!(queue.try_recv(), Taken::Empty));
    assert_eq!(queue.push_frame(&[100]), Pushed::Queued);
}

#[test]
fn a_producer_that_hangs_up_is_noticed_behind_the_last_frame() {
    let mut queue = AudioContext::new();
    assert_eq!(queue.push_frame(&[1]), Pushed::Queued);
    queue.close_producer();
    assert_eq!(take(&mut queue), Some(vec![1]));
    assert!(matches!(queue.try_recv(), Taken::Disconnected));
}

#[test]
fn a_consumer_that_hangs_up_is_noticed_at_once() {
    let mut queue = AudioContext::new();
    queue.close_consumer();
    assert_eq!(queue.push_frame(&[1]), Pushed::Disconnected);
    assert_eq!(queue.push_frame(&[1; 2000]), Pushed::TooLarge);
}

#[test]
fn draining_leaves_nothing() {
    let mut queue = AudioContext::new();
    for i in 0..5u8 {
        assert_eq!(queue.push_frame(&[i]), Pushed::Queued);
    }
    drain_audio_queue(&mut queue);
    assert!(matches!(queue.try_recv(), Taken::Empty));
    assert_eq!(queue.push_frame(&[7]), Pushed::Queued);
    assert_eq!(take(&mut queue), Some(vec![7]));
    drain_audio_queue(&mut queue);
    queue.close_producer();
    drain_audio_queue(&mut queue);
    assert!(matches!(queue.try_recv(), Taken::Disconnected));
}

#[test]
fn order_is_kept_through_pushes_and_takes() {
    let mut queue = AudioContext::new();
    let mut came = Vec::new();
    let mut went = Vec::new();
    for i in 0..60u8 {
        if queue.push_frame(&[i]) == Pushed::Queued {
            came.push(vec![i]);
        }
        if i % 3 == 0 {
            went.extend(take(&mut queue));
        }
    }
    while let Some(frame) = take(&mut queue) {
        went.push(frame);
    }
    assert_eq!(came, went);
    assert_eq!(came.len(), 28);
    assert_eq!(came[10], vec![10]);
    assert_eq!(came[12], vec![13]);
}
