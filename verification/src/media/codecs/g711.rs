//! G.711 companding: PCMU (mu-law) and PCMA (A-law), 8 kHz mono.
//!
//! Each 16-bit sample is companded to one wire byte through a
//! sign-segment-mantissa code: eight logarithmic segments of sixteen
//! steps each. Mu-law bytes travel complemented; A-law bytes travel
//! with alternate bits inverted. Silence encodes to the well-known
//! bytes 0xFF (mu-law) and 0xD5 (A-law).

use vstd::prelude::*;

verus! {

/// Mu-law encode bias: the linear offset added to the magnitude
/// before segmentation.
pub const ULAW_BIAS: u16 = 132;

/// Largest magnitude mu-law can carry before the bias.
pub const ULAW_CLIP: u16 = 32635;

/// The mu-law segment (0-7) of a biased magnitude.
pub open spec fn ulaw_segment(mag: int) -> int {
    if mag >= 16384 {
        7
    } else if mag >= 8192 {
        6
    } else if mag >= 4096 {
        5
    } else if mag >= 2048 {
        4
    } else if mag >= 1024 {
        3
    } else if mag >= 512 {
        2
    } else if mag >= 256 {
        1
    } else {
        0
    }
}

/// Two to the power of a mu-law or A-law segment number.
pub open spec fn segment_scale(seg: int) -> int {
    if seg == 0 {
        1
    } else if seg == 1 {
        2
    } else if seg == 2 {
        4
    } else if seg == 3 {
        8
    } else if seg == 4 {
        16
    } else if seg == 5 {
        32
    } else if seg == 6 {
        64
    } else {
        128
    }
}

/// The mu-law codeword of a sample: sign, segment and mantissa of
/// the biased magnitude, complemented on the wire.
pub open spec fn spec_pcmu_encode(s: i16) -> u8 {
    let sign: int = if s < 0 {
        128
    } else {
        0
    };
    let raw: int = if s < 0 {
        -(s as int)
    } else {
        s as int
    };
    let clipped: int = if raw > ULAW_CLIP as int {
        ULAW_CLIP as int
    } else {
        raw
    };
    let mag: int = clipped + ULAW_BIAS as int;
    let seg: int = ulaw_segment(mag);
    let mant: int = mag / (8 * segment_scale(seg)) % 16;
    (255 - (sign + seg * 16 + mant)) as u8
}

/// The linear sample a mu-law codeword names.
pub open spec fn spec_pcmu_decode(u: u8) -> i16 {
    let c: int = 255 - u as int;
    let seg: int = c / 16 % 8;
    let mant: int = c % 16;
    let mag: int = (mant * 8 + ULAW_BIAS as int) * segment_scale(seg) - ULAW_BIAS as int;
    if c >= 128 {
        (-mag) as i16
    } else {
        mag as i16
    }
}

/// Compand one sample to its mu-law codeword.
pub fn pcmu_encode_sample(s: i16) -> (r: u8)
    ensures
        r == spec_pcmu_encode(s),
{
    let sign: u32 = if s < 0 {
        128
    } else {
        0
    };
    let raw: u32 = if s < 0 {
        (-(s as i32)) as u32
    } else {
        s as u32
    };
    let clipped: u32 = if raw > ULAW_CLIP as u32 {
        ULAW_CLIP as u32
    } else {
        raw
    };
    let mag: u32 = clipped + ULAW_BIAS as u32;
    let (seg, divisor): (u32, u32) = if mag >= 16384 {
        (7, 1024)
    } else if mag >= 8192 {
        (6, 512)
    } else if mag >= 4096 {
        (5, 256)
    } else if mag >= 2048 {
        (4, 128)
    } else if mag >= 1024 {
        (3, 64)
    } else if mag >= 512 {
        (2, 32)
    } else if mag >= 256 {
        (1, 16)
    } else {
        (0, 8)
    };
    let mant: u32 = mag / divisor % 16;
    (255 - (sign + seg * 16 + mant)) as u8
}

/// Expand one mu-law codeword back to its linear sample.
pub fn pcmu_decode_sample(u: u8) -> (r: i16)
    ensures
        r == spec_pcmu_decode(u),
{
    let c: u32 = 255 - u as u32;
    let seg: u32 = c / 16 % 8;
    let mant: u32 = c % 16;
    let scale: u32 = if seg == 0 {
        1
    } else if seg == 1 {
        2
    } else if seg == 2 {
        4
    } else if seg == 3 {
        8
    } else if seg == 4 {
        16
    } else if seg == 5 {
        32
    } else if seg == 6 {
        64
    } else {
        128
    };
    let mag: u32 = (mant * 8 + ULAW_BIAS as u32) * scale - ULAW_BIAS as u32;
    if c >= 128 {
        (-(mag as i32)) as i16
    } else {
        mag as i16
    }
}

/// The A-law segment (0-7) of a magnitude.
pub open spec fn alaw_segment(mag: int) -> int {
    if mag >= 16384 {
        7
    } else if mag >= 8192 {
        6
    } else if mag >= 4096 {
        5
    } else if mag >= 2048 {
        4
    } else if mag >= 1024 {
        3
    } else if mag >= 512 {
        2
    } else if mag >= 256 {
        1
    } else {
        0
    }
}

/// The A-law codeword of a sample: sign (set for non-negative),
/// segment and mantissa, with alternate bits inverted on the wire.
pub open spec fn spec_pcma_encode(s: i16) -> u8 {
    let sign: int = if s >= 0 {
        128
    } else {
        0
    };
    let raw: int = if s < 0 {
        -(s as int)
    } else {
        s as int
    };
    let mag: int = if raw > 32767 {
        32767
    } else {
        raw
    };
    let seg: int = alaw_segment(mag);
    let mant: int = if seg == 0 {
        mag / 16
    } else {
        mag / (16 * segment_scale(seg - 1)) - 16
    };
    spec_alt_invert((sign + seg * 16 + mant) as u8)
}

/// The linear sample an A-law codeword names.
pub open spec fn spec_pcma_decode(u: u8) -> i16 {
    let a: int = spec_alt_invert(u) as int;
    let seg: int = a / 16 % 8;
    let mant: int = a % 16;
    let mag: int = if seg == 0 {
        mant * 16 + 8
    } else {
        (mant * 16 + 264) * segment_scale(seg - 1)
    };
    if a >= 128 {
        mag as i16
    } else {
        (-mag) as i16
    }
}

/// A-law wire toggling: every other bit inverted.
pub open spec fn spec_alt_invert(b: u8) -> u8 {
    (b ^ 0x55) as u8
}

/// Invert the alternate bits of an A-law byte, both onto and off the
/// wire.
pub fn alt_invert(b: u8) -> (r: u8)
    ensures
        r == spec_alt_invert(b),
{
    b ^ 0x55
}

/// Compand one sample to its A-law codeword.
pub fn pcma_encode_sample(s: i16) -> (r: u8)
    ensures
        r == spec_pcma_encode(s),
{
    let sign: u32 = if s >= 0 {
        128
    } else {
        0
    };
    let raw: u32 = if s < 0 {
        (-(s as i32)) as u32
    } else {
        s as u32
    };
    let mag: u32 = if raw > 32767 {
        32767
    } else {
        raw
    };
    let (seg, divisor): (u32, u32) = if mag >= 16384 {
        (7, 1024)
    } else if mag >= 8192 {
        (6, 512)
    } else if mag >= 4096 {
        (5, 256)
    } else if mag >= 2048 {
        (4, 128)
    } else if mag >= 1024 {
        (3, 64)
    } else if mag >= 512 {
        (2, 32)
    } else if mag >= 256 {
        (1, 16)
    } else {
        (0, 16)
    };
    let mant: u32 = if seg == 0 {
        mag / 16
    } else {
        mag / divisor - 16
    };
    alt_invert((sign + seg * 16 + mant) as u8)
}

/// Expand one A-law codeword back to its linear sample.
pub fn pcma_decode_sample(u: u8) -> (r: i16)
    ensures
        r == spec_pcma_decode(u),
{
    let a: u32 = alt_invert(u) as u32;
    let seg: u32 = a / 16 % 8;
    let mant: u32 = a % 16;
    let scale: u32 = if seg <= 1 {
        1
    } else if seg == 2 {
        2
    } else if seg == 3 {
        4
    } else if seg == 4 {
        8
    } else if seg == 5 {
        16
    } else if seg == 6 {
        32
    } else {
        64
    };
    let mag: u32 = if seg == 0 {
        mant * 16 + 8
    } else {
        (mant * 16 + 264) * scale
    };
    if a >= 128 {
        mag as i16
    } else {
        (-(mag as i32)) as i16
    }
}

/// The mu-law wire form of a PCM buffer.
pub open spec fn pcmu_encoded(s: Seq<i16>) -> Seq<u8> {
    Seq::new(s.len(), |i: int| spec_pcmu_encode(s[i]))
}

/// The PCM a mu-law wire buffer expands to.
pub open spec fn pcmu_decoded(b: Seq<u8>) -> Seq<i16> {
    Seq::new(b.len(), |i: int| spec_pcmu_decode(b[i]))
}

/// The A-law wire form of a PCM buffer.
pub open spec fn pcma_encoded(s: Seq<i16>) -> Seq<u8> {
    Seq::new(s.len(), |i: int| spec_pcma_encode(s[i]))
}

/// The PCM an A-law wire buffer expands to.
pub open spec fn pcma_decoded(b: Seq<u8>) -> Seq<i16> {
    Seq::new(b.len(), |i: int| spec_pcma_decode(b[i]))
}

/// Compand a PCM buffer to mu-law wire bytes, one per sample.
pub fn pcmu_encode(pcm: &[i16]) -> (r: Vec<u8>)
    ensures
        r@ == pcmu_encoded(pcm@),
{
    let mut out: Vec<u8> = Vec::new();
    let mut i: usize = 0;
    while i < pcm.len()
        invariant
            i <= pcm@.len(),
            out@.len() == i,
            forall|j: int| 0 <= j < i ==> out@[j] == spec_pcmu_encode(pcm@[j]),
        decreases pcm@.len() - i,
    {
        out.push(pcmu_encode_sample(pcm[i]));
        i = i + 1;
    }
    proof {
        assert(out@ =~= pcmu_encoded(pcm@));
    }
    out
}

/// Expand a mu-law wire buffer to PCM, one sample per byte.
pub fn pcmu_decode(bytes: &[u8]) -> (r: Vec<i16>)
    ensures
        r@ == pcmu_decoded(bytes@),
{
    let mut out: Vec<i16> = Vec::new();
    let mut i: usize = 0;
    while i < bytes.len()
        invariant
            i <= bytes@.len(),
            out@.len() == i,
            forall|j: int| 0 <= j < i ==> out@[j] == spec_pcmu_decode(bytes@[j]),
        decreases bytes@.len() - i,
    {
        out.push(pcmu_decode_sample(bytes[i]));
        i = i + 1;
    }
    proof {
        assert(out@ =~= pcmu_decoded(bytes@));
    }
    out
}

/// Compand a PCM buffer to A-law wire bytes, one per sample.
pub fn pcma_encode(pcm: &[i16]) -> (r: Vec<u8>)
    ensures
        r@ == pcma_encoded(pcm@),
{
    let mut out: Vec<u8> = Vec::new();
    let mut i: usize = 0;
    while i < pcm.len()
        invariant
            i <= pcm@.len(),
            out@.len() == i,
            forall|j: int| 0 <= j < i ==> out@[j] == spec_pcma_encode(pcm@[j]),
        decreases pcm@.len() - i,
    {
        out.push(pcma_encode_sample(pcm[i]));
        i = i + 1;
    }
    proof {
        assert(out@ =~= pcma_encoded(pcm@));
    }
    out
}

/// Expand an A-law wire buffer to PCM, one sample per byte.
pub fn pcma_decode(bytes: &[u8]) -> (r: Vec<i16>)
    ensures
        r@ == pcma_decoded(bytes@),
{
    let mut out: Vec<i16> = Vec::new();
    let mut i: usize = 0;
    while i < bytes.len()
        invariant
            i <= bytes@.len(),
            out@.len() == i,
            forall|j: int| 0 <= j < i ==> out@[j] == spec_pcma_decode(bytes@[j]),
        decreases bytes@.len() - i,
    {
        out.push(pcma_decode_sample(bytes[i]));
        i = i + 1;
    }
    proof {
        assert(out@ =~= pcma_decoded(bytes@));
    }
    out
}

/// Distance between two integers.
pub open spec fn abs_diff(a: int, b: int) -> int {
    if a >= b {
        a - b
    } else {
        b - a
    }
}

/// Law: A-law companding is lossy by at most half the widest
/// segment's step — a sample expands to within 512 of where it
/// started.
pub proof fn lemma_pcma_round_trip_error(s: i16)
    ensures
        abs_diff(spec_pcma_decode(spec_pcma_encode(s)) as int, s as int) <= 512,
{
    let sign: int = if s >= 0 {
        128
    } else {
        0
    };
    let raw: int = if s < 0 {
        -(s as int)
    } else {
        s as int
    };
    let mag: int = if raw > 32767 {
        32767
    } else {
        raw
    };
    let seg: int = alaw_segment(mag);
    let mant: int = if seg == 0 {
        mag / 16
    } else {
        mag / (16 * segment_scale(seg - 1)) - 16
    };
    let code: u8 = (sign + seg * 16 + mant) as u8;
    assert(0 <= mant < 16) by {
        if seg == 0 {
        } else if seg == 1 {
            vstd::arithmetic::div_mod::lemma_fundamental_div_mod(mag, 16);
        } else if seg == 2 {
            vstd::arithmetic::div_mod::lemma_fundamental_div_mod(mag, 32);
        } else if seg == 3 {
            vstd::arithmetic::div_mod::lemma_fundamental_div_mod(mag, 64);
        } else if seg == 4 {
            vstd::arithmetic::div_mod::lemma_fundamental_div_mod(mag, 128);
        } else if seg == 5 {
            vstd::arithmetic::div_mod::lemma_fundamental_div_mod(mag, 256);
        } else if seg == 6 {
            vstd::arithmetic::div_mod::lemma_fundamental_div_mod(mag, 512);
        } else {
            vstd::arithmetic::div_mod::lemma_fundamental_div_mod(mag, 1024);
        }
    }
    let wire: u8 = spec_pcma_encode(s);
    assert(wire == spec_alt_invert(code));
    let back: u8 = spec_alt_invert(wire);
    assert(back == code) by (bit_vector)
        requires
            wire == (code ^ 0x55) as u8,
            back == (wire ^ 0x55) as u8,
    ;
    let a: int = back as int;
    assert(a == sign + seg * 16 + mant);
    assert(a / 16 % 8 == seg && a % 16 == mant && (a >= 128 <==> sign == 128));
    let mag2: int = if seg == 0 {
        mant * 16 + 8
    } else {
        (mant * 16 + 264) * segment_scale(seg - 1)
    };
    assert(abs_diff(mag2, mag) <= 512) by {
        if seg == 0 {
            vstd::arithmetic::div_mod::lemma_fundamental_div_mod(mag, 16);
            assert(mag2 == 16 * (mag / 16) + 8);
        } else if seg == 1 {
            vstd::arithmetic::div_mod::lemma_fundamental_div_mod(mag, 16);
            assert(mant == mag / 16 - 16);
            assert(mag2 == (mant * 16 + 264) * 1);
            assert(mag2 == 16 * (mag / 16) + 8);
        } else if seg == 2 {
            vstd::arithmetic::div_mod::lemma_fundamental_div_mod(mag, 32);
            assert(mant == mag / 32 - 16);
            assert(mag2 == (mant * 16 + 264) * 2);
            assert(mag2 == 32 * (mag / 32) + 16);
        } else if seg == 3 {
            vstd::arithmetic::div_mod::lemma_fundamental_div_mod(mag, 64);
            assert(mant == mag / 64 - 16);
            assert(mag2 == (mant * 16 + 264) * 4);
            assert(mag2 == 64 * (mag / 64) + 32);
        } else if seg == 4 {
            vstd::arithmetic::div_mod::lemma_fundamental_div_mod(mag, 128);
            assert(mant == mag / 128 - 16);
            assert(mag2 == (mant * 16 + 264) * 8);
            assert(mag2 == 128 * (mag / 128) + 64);
        } else if seg == 5 {
            vstd::arithmetic::div_mod::lemma_fundamental_div_mod(mag, 256);
            assert(mant == mag / 256 - 16);
            assert(mag2 == (mant * 16 + 264) * 16);
            assert(mag2 == 256 * (mag / 256) + 128);
        } else if seg == 6 {
            vstd::arithmetic::div_mod::lemma_fundamental_div_mod(mag, 512);
            assert(mant == mag / 512 - 16);
            assert(mag2 == (mant * 16 + 264) * 32);
            assert(mag2 == 512 * (mag / 512) + 256);
        } else {
            vstd::arithmetic::div_mod::lemma_fundamental_div_mod(mag, 1024);
            assert(seg == 7);
            assert(mant == mag / 1024 - 16);
            assert(mag2 == (mant * 16 + 264) * 64);
            assert(mag2 == 1024 * (mag / 1024) + 512);
        }
    }
    let out: i16 = spec_pcma_decode(wire);
    assert(out as int == if sign == 128 {
        mag2
    } else {
        -mag2
    });
    assert(abs_diff(mag, raw) <= 1);
}

/// Law: mu-law companding is lossy by at most half the widest
/// segment's step — 512 — on the range it carries without clipping,
/// and by at most 644 at the clipped extremes.
pub proof fn lemma_pcmu_round_trip_error(s: i16)
    ensures
        abs_diff(spec_pcmu_decode(spec_pcmu_encode(s)) as int, s as int) <= 644,
        -32635 <= s <= 32635 ==> abs_diff(
            spec_pcmu_decode(spec_pcmu_encode(s)) as int,
            s as int,
        ) <= 512,
{
    let sign: int = if s < 0 {
        128
    } else {
        0
    };
    let raw: int = if s < 0 {
        -(s as int)
    } else {
        s as int
    };
    let clipped: int = if raw > ULAW_CLIP as int {
        ULAW_CLIP as int
    } else {
        raw
    };
    let mag: int = clipped + ULAW_BIAS as int;
    let seg: int = ulaw_segment(mag);
    let mant: int = mag / (8 * segment_scale(seg)) % 16;
    let code: int = sign + seg * 16 + mant;
    let wire: u8 = spec_pcmu_encode(s);
    assert(0 <= mant < 16);
    assert(wire as int == 255 - code);
    let c: int = 255 - wire as int;
    assert(c == code);
    assert(c / 16 % 8 == seg && c % 16 == mant && (c >= 128 <==> sign == 128));
    let mag2: int = (mant * 8 + ULAW_BIAS as int) * segment_scale(seg) - ULAW_BIAS as int;
    assert(abs_diff(mag2, mag - 132) <= 512 && mag2 <= 32124) by {
        if seg == 0 {
            vstd::arithmetic::div_mod::lemma_fundamental_div_mod(mag, 8);
            assert(mag / 8 < 32);
            assert(16 <= mag / 8);
            assert(mant == mag / 8 - 16);
            assert(mag2 == (mant * 8 + 132) * 1 - 132);
            assert(mag2 == mant * 8);
            assert(mag2 == 8 * (mag / 8) + 4 - 132);
        } else if seg == 1 {
            vstd::arithmetic::div_mod::lemma_fundamental_div_mod(mag, 16);
            assert(mag / 16 < 32);
            assert(mant == mag / 16 - 16);
            assert(mag2 == (mant * 8 + 132) * 2 - 132);
            assert(mag2 == 16 * (mag / 16) + 8 - 132);
        } else if seg == 2 {
            vstd::arithmetic::div_mod::lemma_fundamental_div_mod(mag, 32);
            assert(mag / 32 < 32);
            assert(mant == mag / 32 - 16);
            assert(mag2 == (mant * 8 + 132) * 4 - 132);
            assert(mag2 == 32 * (mag / 32) + 16 - 132);
        } else if seg == 3 {
            vstd::arithmetic::div_mod::lemma_fundamental_div_mod(mag, 64);
            assert(mag / 64 < 32);
            assert(mant == mag / 64 - 16);
            assert(mag2 == (mant * 8 + 132) * 8 - 132);
            assert(mag2 == 64 * (mag / 64) + 32 - 132);
        } else if seg == 4 {
            vstd::arithmetic::div_mod::lemma_fundamental_div_mod(mag, 128);
            assert(mag / 128 < 32);
            assert(mant == mag / 128 - 16);
            assert(mag2 == (mant * 8 + 132) * 16 - 132);
            assert(mag2 == 128 * (mag / 128) + 64 - 132);
        } else if seg == 5 {
            vstd::arithmetic::div_mod::lemma_fundamental_div_mod(mag, 256);
            assert(mag / 256 < 32);
            assert(mant == mag / 256 - 16);
            assert(mag2 == (mant * 8 + 132) * 32 - 132);
            assert(mag2 == 256 * (mag / 256) + 128 - 132);
        } else if seg == 6 {
            vstd::arithmetic::div_mod::lemma_fundamental_div_mod(mag, 512);
            assert(mag / 512 < 32);
            assert(mant == mag / 512 - 16);
            assert(mag2 == (mant * 8 + 132) * 64 - 132);
            assert(mag2 == 512 * (mag / 512) + 256 - 132);
        } else {
            vstd::arithmetic::div_mod::lemma_fundamental_div_mod(mag, 1024);
            assert(seg == 7);
            assert(mag / 1024 < 32);
            assert(mant == mag / 1024 - 16);
            assert(mag2 == (mant * 8 + 132) * 128 - 132);
            assert(mag2 == 1024 * (mag / 1024) + 512 - 132);
        }
    }
    let out: i16 = spec_pcmu_decode(wire);
    assert(out as int == if sign == 128 {
        -mag2
    } else {
        mag2
    });
    assert(abs_diff(mag2, raw) <= 644) by {
        assert(abs_diff(mag - 132, raw) <= 133);
        if raw <= ULAW_CLIP as int {
            assert(mag - 132 == raw);
        } else {
            assert(mag - 132 == 32635);
            assert(raw <= 32768);
            assert(mag2 == 32124);
        }
    }
    if -32635 <= s <= 32635 {
        assert(raw <= ULAW_CLIP as int);
        assert(mag - 132 == raw);
    }
}

} // verus!


