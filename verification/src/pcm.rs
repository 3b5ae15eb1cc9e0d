//! Arithmetic on 16-bit PCM samples and their little-endian byte form.

use vstd::prelude::*;

verus! {

/// Loudest sample that attenuation lets through, on either side of zero.
pub const ATTENUATION_LIMIT: i16 = 32760;

/// Factor by which a sample is amplified before it goes into a websocket frame.
pub const GAIN: i32 = 2;

/// The nearest number to `x` in `lo..=hi`.
pub open spec fn clamped(x: int, lo: int, hi: int) -> int {
    if x < lo {
        lo
    } else if x > hi {
        hi
    } else {
        x
    }
}

/// Half of a sample, rounded down, kept within the attenuation limit.
pub open spec fn attenuated(sample: i16) -> i16 {
    clamped(sample as int / 2, -ATTENUATION_LIMIT, ATTENUATION_LIMIT as int) as i16
}

/// Twice a sample, saturated to the range of `i16`.
pub open spec fn amplified(sample: i16) -> i16 {
    clamped(sample * GAIN, i16::MIN as int, i16::MAX as int) as i16
}

/// The sixteen bits of a sample read as an unsigned number (two's complement).
pub open spec fn sample_bits(sample: i16) -> int {
    if sample >= 0 {
        sample as int
    } else {
        sample + 0x1_0000
    }
}

/// Byte `i` of the s16le encoding of `samples`: low byte first.
pub open spec fn sample_byte(samples: Seq<i16>, i: int) -> u8 {
    if i % 2 == 0 {
        (sample_bits(samples[i / 2]) % 256) as u8
    } else {
        (sample_bits(samples[i / 2]) / 256) as u8
    }
}

/// The s16le encoding of `samples`.
pub open spec fn encoded(samples: Seq<i16>) -> Seq<u8> {
    Seq::new((2 * samples.len()) as nat, |i: int| sample_byte(samples, i))
}

/// The sample whose s16le encoding is `lo`, `hi`.
pub open spec fn decoded_sample(lo: u8, hi: u8) -> i16 {
    let bits = lo + 256 * hi;
    if bits < 0x8000 {
        bits as i16
    } else {
        (bits - 0x1_0000) as i16
    }
}

/// The samples whose s16le encoding is `bytes`; an odd byte at the end is left out.
pub open spec fn decoded(bytes: Seq<u8>) -> Seq<i16> {
    Seq::new(
        (bytes.len() / 2) as nat,
        |i: int| decoded_sample(bytes[2 * i], bytes[2 * i + 1]),
    )
}

/// `samples` with the first `n` attenuated and the rest as they were.
pub open spec fn attenuated_prefix(samples: Seq<i16>, n: int) -> Seq<i16> {
    Seq::new(
        samples.len(),
        |i: int|
            if i < n {
                attenuated(samples[i])
            } else {
                samples[i]
            },
    )
}

/// Halves one sample, rounding down, and clamps it to the attenuation limit.
pub fn attenuate_sample(sample: i16) -> (r: i16)
    ensures
        r == attenuated(sample),
{
    let half: i16 = sample >> 1;
    assert(half == sample as int / 2) by {
        assert(sample >> 1 == sample / 2) by (bit_vector);
    }
    if half < -ATTENUATION_LIMIT {
        -ATTENUATION_LIMIT
    } else if half > ATTENUATION_LIMIT {
        ATTENUATION_LIMIT
    } else {
        half
    }
}

/// Attenuates the first `n` samples of a buffer in place.
pub fn attenuate(samples: &mut [i16], n: usize)
    requires
        n <= old(samples)@.len(),
    ensures
        final(samples)@ == attenuated_prefix(old(samples)@, n as int),
{
    let ghost before = samples@;
    let mut i: usize = 0;
    while i < n
        invariant
            i <= n <= before.len(),
            samples@ =~= attenuated_prefix(before, i as int),
        decreases n - i,
    {
        let s: i16 = attenuate_sample(samples[i]);
        samples[i] = s;
        i += 1;
    }
}

/// Doubles one sample, saturating at the ends of the `i16` range.
pub fn amplify_sample(sample: i16) -> (r: i16)
    ensures
        r == amplified(sample),
{
    let scaled: i32 = sample as i32 * GAIN;
    if scaled > i16::MAX as i32 {
        i16::MAX
    } else if scaled < i16::MIN as i32 {
        i16::MIN
    } else {
        scaled as i16
    }
}

/// The two bytes of a sample, low byte first.
pub fn sample_to_le(sample: i16) -> (r: (u8, u8))
    ensures
        r.0 == sample_bits(sample) % 256,
        r.1 == sample_bits(sample) / 256,
{
    let bits: u16 = if sample >= 0 {
        sample as u16
    } else {
        (sample as i32 + 0x1_0000) as u16
    };
    ((bits % 256) as u8, (bits / 256) as u8)
}

/// The first `num_bytes` bytes of the s16le encoding of a buffer.
pub fn raw_bytes(samples: &[i16], num_bytes: usize) -> (r: Vec<u8>)
    requires
        num_bytes <= 2 * samples@.len(),
    ensures
        r@ == encoded(samples@).take(num_bytes as int),
{
    let mut out: Vec<u8> = Vec::new();
    let mut i: usize = 0;
    while i < num_bytes
        invariant
            i <= num_bytes <= 2 * samples@.len(),
            out@ =~= encoded(samples@).take(i as int),
        decreases num_bytes - i,
    {
        let pair: (u8, u8) = sample_to_le(samples[i / 2]);
        let byte: u8 = if i % 2 == 0 {
            pair.0
        } else {
            pair.1
        };
        out.push(byte);
        i += 1;
    }
    out
}

/// Attenuation never reaches the clamp: it is half the sample, rounded down.
pub proof fn law_attenuation_never_clips(sample: i16)
    ensures
        attenuated(sample) == sample as int / 2,
        -0x4000 <= attenuated(sample) < 0x4000,
{
}

/// Amplifying an attenuated sample never saturates and gives the sample back
/// with its lowest bit cleared.
pub proof fn law_gain_undoes_attenuation(sample: i16)
    ensures
        amplified(attenuated(sample)) == sample - sample as int % 2,
{
}

/// Attenuation and gain keep the order of samples.
pub proof fn law_levels_keep_order(a: i16, b: i16)
    requires
        a <= b,
    ensures
        attenuated(a) <= attenuated(b),
        amplified(a) <= amplified(b),
{
}

/// Decoding the s16le bytes of any samples gives those samples back.
pub proof fn law_encoding_round_trip(samples: Seq<i16>)
    ensures
        decoded(encoded(samples)) == samples,
        encoded(samples).len() == 2 * samples.len(),
{
    assert(decoded(encoded(samples)) =~= samples) by {
        assert forall|i: int| 0 <= i < samples.len() implies decoded(encoded(samples))[i]
            == samples[i] by {
            let bytes = encoded(samples);
            assert((2 * i) % 2 == 0 && (2 * i) / 2 == i);
            assert((2 * i + 1) % 2 == 1 && (2 * i + 1) / 2 == i);
            assert(bytes[2 * i] == sample_byte(samples, 2 * i));
            assert(bytes[2 * i + 1] == sample_byte(samples, 2 * i + 1));
        }
    }
}

/// Gain doubles every sample that stays within sixteen bits and holds every other at the
/// end of the range that it would leave.
pub proof fn law_gain_doubles_or_saturates(sample: i16)
    ensures
        -0x4000 <= sample < 0x4000 ==> amplified(sample) == 2 * sample,
        sample >= 0x4000 ==> amplified(sample) == 0x7fff,
        sample < -0x4000 ==> amplified(sample) == -0x8000,
{
}

/// Every sample becomes two bytes, the low one first: together they are the sample, modulo
/// 65536.
pub proof fn law_bytes_are_little_endian(samples: Seq<i16>, i: int)
    requires
        0 <= i < samples.len(),
    ensures
        encoded(samples).len() == 2 * samples.len(),
        samples[i] >= 0 ==> encoded(samples)[2 * i] + 256 * encoded(samples)[2 * i + 1]
            == samples[i],
        samples[i] < 0 ==> encoded(samples)[2 * i] + 256 * encoded(samples)[2 * i + 1] == samples[i]
            + 65536,
{
    assert((2 * i) % 2 == 0 && (2 * i) / 2 == i);
    assert((2 * i + 1) % 2 == 1 && (2 * i + 1) / 2 == i);
    assert(encoded(samples)[2 * i] == sample_byte(samples, 2 * i));
    assert(encoded(samples)[2 * i + 1] == sample_byte(samples, 2 * i + 1));
}

/// Of a buffer that is attenuated up to `n`, each sample before `n` is half of what it was,
/// rounded down, and each later one is what it was.
pub proof fn law_prefix_is_halved(samples: Seq<i16>, n: int, i: int)
    requires
        0 <= i < samples.len(),
    ensures
        attenuated_prefix(samples, n).len() == samples.len(),
        i < n ==> attenuated_prefix(samples, n)[i] == samples[i] as int / 2,
        i >= n ==> attenuated_prefix(samples, n)[i] == samples[i],
{
}

} // verus!
