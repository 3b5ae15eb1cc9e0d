use esp32s3_i2s_mic_idf::pcm::{
    amplify_sample, attenuate, attenuate_sample, raw_bytes, sample_to_le,
};

#[test]
fn attenuation_halves_and_rounds_down() {
    assert_eq!(attenuate_sample(100), 50);
    assert_eq!(attenuate_sample(101), 50);
    assert_eq!(attenuate_sample(-1), -1);
    assert_eq!(attenuate_sample(-3), -2);
    assert_eq!(attenuate_sample(0), 0);
    assert_eq!(attenuate_sample(i16::MIN), -16384);
    assert_eq!(attenuate_sample(i16::MAX), 16383);
}

#[test]
fn attenuation_is_shift_and_clamp_for_every_sample() {
    for s in i16::MIN..=i16::MAX {
        assert_eq!(attenuate_sample(s), (s >> 1).clamp(-32760, 32760));
    }
}

#[test]
fn attenuation_touches_only_the_samples_that_were_read() {
    let mut buf = [10i16, -7, 32767, -32768];
    attenuate(&mut buf, 2);
    assert_eq!(buf, [5, -4, 32767, -32768]);
    attenuate(&mut buf, 0);
    assert_eq!(buf, [5, -4, 32767, -32768]);
}

#[test]
fn gain_doubles_and_saturates() {
    assert_eq!(amplify_sample(3), 6);
    assert_eq!(amplify_sample(-3), -6);
    assert_eq!(amplify_sample(16383), 32766);
    assert_eq!(amplify_sample(16384), 32767);
    assert_eq!(amplify_sample(-16384), -32768);
    assert_eq!(amplify_sample(-16385), -32768);
    assert_eq!(amplify_sample(i16::MAX), i16::MAX);
    assert_eq!(amplify_sample(i16::MIN), i16::MIN);
}

#[test]
fn gain_is_that_of_single_precision_for_every_sample() {
    for s in i16::MIN..=i16::MAX {
        let scaled = (s as f32 * 2.0).round();
        let expected = if scaled > i16::MAX as f32 {
            i16::MAX
        } else if scaled < i16::MIN as f32 {
            i16::MIN
        } else {
            scaled as i16
        };
        assert_eq!(amplify_sample(s), expected);
    }
}

#[test]
fn gain_undoes_attenuation_but_for_the_lowest_bit() {
    for s in i16::MIN..=i16::MAX {
        assert_eq!(amplify_sample(attenuate_sample(s)), s & !1);
    }
}

#[test]
fn samples_are_little_endian() {
    assert_eq!(sample_to_le(0x1234), (0x34, 0x12));
    assert_eq!(sample_to_le(-2), (0xfe, 0xff));
    assert_eq!(sample_to_le(i16::MIN), (0x00, 0x80));
    for s in i16::MIN..=i16::MAX {
        let (lo, hi) = sample_to_le(s);
        assert_eq!([lo, hi], s.to_le_bytes());
        assert_eq!(i16::from_le_bytes([lo, hi]), s);
    }
}

#[test]
fn raw_bytes_may_end_within_a_sample() {
    let buf = [0x0102i16, -1, 0x7f80];
    assert_eq!(raw_bytes(&buf, 6), vec![0x02, 0x01, 0xff, 0xff, 0x80, 0x7f]);
    assert_eq!(raw_bytes(&buf, 5), vec![0x02, 0x01, 0xff, 0xff, 0x80]);
    assert_eq!(raw_bytes(&buf, 0), Vec::<u8>::new());
}
