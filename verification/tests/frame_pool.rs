use esp32s3_i2s_mic_idf::frame_pool::{
    acquire_slot, init_slots, make_frame, release_slot, retain_slot, FrameHandle, FrameSlot,
    FRAME_POOL_CAPACITY,
};
use esp32s3_i2s_mic_idf::pcm::attenuate;
use esp32s3_i2s_mic_idf::{BUFFER_SAMPLES_PER_READ, FRAME_BYTES};

#[test]
fn a_new_slot_is_empty_and_zeroed() {
    let mut slot = FrameSlot::new();
    assert_eq!(slot.as_slice().len(), 0);
    assert_eq!(slot.as_mut_slice().len(), FRAME_BYTES);
    assert!(slot.as_mut_slice().iter().all(|b| *b == 0));
    slot.as_mut_slice()[3] = 7;
    assert_eq!(slot.as_mut_slice()[3], 7);
    assert_eq!(slot.as_slice().len(), 0);
}

#[test]
fn slots_are_taken_from_the_lowest() {
    let mut pool = init_slots();
    assert_eq!(acquire_slot(&mut pool, 0), Some(0));
    assert_eq!(acquire_slot(&mut pool, FRAME_BYTES), Some(1));
    assert_eq!(acquire_slot(&mut pool, FRAME_BYTES + 1), None);
    assert_eq!(acquire_slot(&mut pool, 1), Some(2));
    release_slot(&mut pool, 1);
    assert_eq!(acquire_slot(&mut pool, 1), Some(1));
    assert_eq!(acquire_slot(&mut pool, 1), Some(3));
}

#[test]
fn a_pool_runs_out_after_its_capacity() {
    let mut pool = init_slots();
    for i in 0..FRAME_POOL_CAPACITY {
        assert_eq!(acquire_slot(&mut pool, 2), Some(i));
    }
    assert_eq!(acquire_slot(&mut pool, 2), None);
    release_slot(&mut pool, 40);
    assert_eq!(acquire_slot(&mut pool, 2), Some(40));
    assert_eq!(acquire_slot(&mut pool, 2), None);
}

#[test]
fn a_retained_slot_is_free_only_after_as_many_releases() {
    let mut pool = init_slots();
    assert_eq!(acquire_slot(&mut pool, 2), Some(0));
    retain_slot(&mut pool, 0);
    release_slot(&mut pool, 0);
    assert_eq!(acquire_slot(&mut pool, 2), Some(1));
    release_slot(&mut pool, 0);
    assert_eq!(acquire_slot(&mut pool, 2), Some(0));
}

#[test]
fn counts_wrap_around() {
    let mut pool = init_slots();
    release_slot(&mut pool, 0);
    assert_eq!(acquire_slot(&mut pool, 2), Some(1));
    retain_slot(&mut pool, 0);
    assert_eq!(acquire_slot(&mut pool, 2), Some(0));
}

#[test]
fn a_frame_holds_its_samples_amplified() {
    let mut pool = init_slots();
    let frame = make_frame(&mut pool, &[1, -1, 20000, -20000]).unwrap();
    assert_eq!(frame.as_slice(&pool), &[2, 0, 0xfe, 0xff, 0xff, 0x7f, 0x00, 0x80]);
}

#[test]
fn an_empty_frame_takes_a_slot() {
    let mut pool = init_slots();
    let frame = make_frame(&mut pool, &[]).unwrap();
    assert_eq!(frame.as_slice(&pool).len(), 0);
    assert_eq!(acquire_slot(&mut pool, 0), Some(1));
}

#[test]
fn a_frame_may_fill_its_slot_but_not_more() {
    let mut pool = init_slots();
    assert!(make_frame(&mut pool, &[5; 320]).is_some());
    assert!(make_frame(&mut pool, &[5; 321]).is_none());
    assert_eq!(acquire_slot(&mut pool, 0), Some(1));
}

#[test]
fn a_whole_read_does_not_fit_a_slot() {
    let mut pool = init_slots();
    assert!(make_frame(&mut pool, &[0; BUFFER_SAMPLES_PER_READ]).is_none());
}

#[test]
fn make_frame_fails_when_the_pool_is_exhausted() {
    let mut pool = init_slots();
    let frames: Vec<FrameHandle> =
        (0..64).map(|i| make_frame(&mut pool, &[i as i16]).unwrap()).collect();
    assert!(make_frame(&mut pool, &[1]).is_none());
    for (i, frame) in frames.iter().enumerate() {
        assert_eq!(frame.as_slice(&pool), &[2 * i as u8, 0]);
    }
}

#[test]
fn a_frame_lives_until_its_last_handle_is_dropped() {
    let mut pool = init_slots();
    let first = make_frame(&mut pool, &[7]).unwrap();
    let second = first.clone(&mut pool);
    first.drop(&mut pool);
    let other = make_frame(&mut pool, &[9]).unwrap();
    assert_eq!(second.as_slice(&pool), &[14, 0]);
    assert_eq!(other.as_slice(&pool), &[18, 0]);
    second.drop(&mut pool);
    let third = make_frame(&mut pool, &[11]).unwrap();
    assert_eq!(third.as_slice(&pool), &[22, 0]);
    assert_eq!(other.as_slice(&pool), &[18, 0]);
}

#[test]
fn dropping_a_clone_changes_nothing() {
    let mut pool = init_slots();
    let frame = make_frame(&mut pool, &[1, 2, 3]).unwrap();
    let clone = frame.clone(&mut pool);
    clone.drop(&mut pool);
    assert_eq!(frame.as_slice(&pool), &[2, 0, 4, 0, 6, 0]);
    assert_eq!(acquire_slot(&mut pool, 0), Some(1));
    frame.drop(&mut pool);
    assert_eq!(acquire_slot(&mut pool, 0), Some(0));
}

#[test]
fn a_frame_of_attenuated_samples_restores_the_level() {
    let mut pool = init_slots();
    let raw = [0i16, 1, -1, 1000, -1001, i16::MAX, i16::MIN];
    let mut quiet = raw;
    attenuate(&mut quiet, raw.len());
    let frame = make_frame(&mut pool, &quiet).unwrap();
    let heard: Vec<i16> = frame
        .as_slice(&pool)
        .chunks(2)
        .map(|b| i16::from_le_bytes([b[0], b[1]]))
        .collect();
    let expected: Vec<i16> = raw.iter().map(|s| s & !1).collect();
    assert_eq!(heard, expected);
}

#[test]
fn a_slot_is_free_exactly_without_live_handles() {
    let mut pool = init_slots();
    // Each live handle with its slot and the bytes of its frame.
    let mut live: Vec<(FrameHandle, usize, Vec<u8>)> = Vec::new();
    for step in 0..200usize {
        match step % 5 {
            0 | 1 => {
                let lowest = (0..64).find(|i| live.iter().all(|h| h.1 != *i)).unwrap();
                let frame = make_frame(&mut pool, &[step as i16]).unwrap();
                let bytes = (2 * step as u16).to_le_bytes().to_vec();
                live.push((frame, lowest, bytes));
            }
            2 | 3 => {
                let (frame, slot, bytes) = &live[step % live.len()];
                let copy = (frame.clone(&mut pool), *slot, bytes.clone());
                live.push(copy);
            }
            _ => {
                for _ in 0..3 {
                    let (frame, _, _) = live.swap_remove(step % live.len());
                    frame.drop(&mut pool);
                }
            }
        }
        for (frame, _, bytes) in &live {
            assert_eq!(frame.as_slice(&pool), &bytes[..]);
        }
        let free = (0..64).find(|i| live.iter().all(|h| h.1 != *i)).unwrap();
        assert_eq!(acquire_slot(&mut pool, 0), Some(free));
        release_slot(&mut pool, free);
    }
    assert_eq!(live.len(), 40);
}
