//! L16: linear 16-bit PCM on the wire, network byte order, any rate.
//!
//! Encoding writes each sample big-endian; decoding reads pairs of
//! bytes back into samples. The two are exact inverses, so this codec
//! is lossless.

use vstd::prelude::*;

verus! {

/// A sample reinterpreted as its two's-complement 16-bit pattern.
pub open spec fn sample_bits(s: i16) -> int {
    if s >= 0 {
        s as int
    } else {
        s as int + 0x10000
    }
}

/// The high (first, network order) wire byte of a sample.
pub open spec fn wire_hi(s: i16) -> u8 {
    (sample_bits(s) / 256) as u8
}

/// The low (second) wire byte of a sample.
pub open spec fn wire_lo(s: i16) -> u8 {
    (sample_bits(s) % 256) as u8
}

/// The sample read back from its two wire bytes.
pub open spec fn sample_of_wire(hi: u8, lo: u8) -> i16 {
    if hi < 128 {
        (hi * 256 + lo) as i16
    } else {
        (hi * 256 + lo - 0x10000) as i16
    }
}

/// The L16 wire form of a PCM buffer: each sample as two bytes,
/// big-endian, in order.
pub open spec fn l16_encoded(s: Seq<i16>) -> Seq<u8> {
    Seq::new(
        (s.len() * 2) as nat,
        |i: int|
            if i % 2 == 0 {
                wire_hi(s[i / 2])
            } else {
                wire_lo(s[i / 2])
            },
    )
}

/// The PCM read back from an L16 wire buffer; a trailing odd byte is
/// ignored.
pub open spec fn l16_decoded(b: Seq<u8>) -> Seq<i16> {
    Seq::new((b.len() / 2) as nat, |i: int| sample_of_wire(b[2 * i], b[2 * i + 1]))
}

/// Split one sample into its big-endian wire bytes.
pub fn sample_to_wire(s: i16) -> (r: (u8, u8))
    ensures
        r.0 == wire_hi(s),
        r.1 == wire_lo(s),
{
    let bits: u32 = if s >= 0 {
        s as u32
    } else {
        (s as i32 + 0x10000) as u32
    };
    ((bits / 256) as u8, (bits % 256) as u8)
}

/// Read one sample back from its big-endian wire bytes.
pub fn wire_to_sample(hi: u8, lo: u8) -> (r: i16)
    ensures
        r == sample_of_wire(hi, lo),
{
    let bits: u32 = (hi as u32) * 256 + (lo as u32);
    if hi < 128 {
        bits as i16
    } else {
        (bits as i32 - 0x10000) as i16
    }
}

/// Encode a PCM buffer to the L16 wire form: each sample big-endian.
pub fn l16_encode(pcm: &[i16]) -> (r: Vec<u8>)
    requires
        pcm@.len() * 2 <= usize::MAX,
    ensures
        r@ == l16_encoded(pcm@),
{
    let mut out: Vec<u8> = Vec::new();
    let mut i: usize = 0;
    while i < pcm.len()
        invariant
            i <= pcm@.len(),
            pcm@.len() * 2 <= usize::MAX,
            out@.len() == 2 * i,
            forall|j: int|
                0 <= j < 2 * i ==> out@[j] == (if j % 2 == 0 {
                    wire_hi(pcm@[j / 2])
                } else {
                    wire_lo(pcm@[j / 2])
                }),
        decreases pcm@.len() - i,
    {
        let (hi, lo) = sample_to_wire(pcm[i]);
        out.push(hi);
        out.push(lo);
        i = i + 1;
    }
    proof {
        assert(out@ =~= l16_encoded(pcm@));
    }
    out
}

/// Decode an L16 wire buffer back to PCM; a trailing odd byte is
/// ignored.
pub fn l16_decode(bytes: &[u8]) -> (r: Vec<i16>)
    ensures
        r@ == l16_decoded(bytes@),
{
    let blen: usize = bytes.len();
    let n: usize = blen / 2;
    let mut out: Vec<i16> = Vec::new();
    let mut i: usize = 0;
    while i < n
        invariant
            i <= n,
            blen == bytes@.len(),
            n == bytes@.len() / 2,
            2 * n <= blen,
            out@.len() == i,
            forall|j: int| 0 <= j < i ==> out@[j] == sample_of_wire(bytes@[2 * j], bytes@[2 * j + 1]),
        decreases n - i,
    {
        let s = wire_to_sample(bytes[2 * i], bytes[2 * i + 1]);
        out.push(s);
        i = i + 1;
    }
    proof {
        assert(out@ =~= l16_decoded(bytes@));
    }
    out
}

/// One sample survives the wire unchanged.
proof fn lemma_sample_round_trip(s: i16)
    ensures
        sample_of_wire(wire_hi(s), wire_lo(s)) == s,
{
    vstd::arithmetic::div_mod::lemma_fundamental_div_mod(sample_bits(s), 256);
}

/// Law: L16 is lossless — decoding an encoded buffer gives back
/// exactly the samples that went in.
pub proof fn lemma_l16_round_trip(pcm: Seq<i16>)
    ensures
        l16_decoded(l16_encoded(pcm)) == pcm,
{
    let enc = l16_encoded(pcm);
    assert forall|i: int| 0 <= i < pcm.len() implies l16_decoded(enc)[i] == pcm[i] by {
        assert(enc[2 * i] == wire_hi(pcm[i]));
        assert(enc[2 * i + 1] == wire_lo(pcm[i]));
        lemma_sample_round_trip(pcm[i]);
    }
    assert(l16_decoded(enc) =~= pcm);
}

} // verus!
