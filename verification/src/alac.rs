//! Uncompressed ("verbatim") ALAC frames of 352 stereo 16-bit samples.

use crate::failure::Failure;
use vstd::arithmetic::power2::{lemma2_to64, lemma_pow2_unfold, pow2};
use vstd::prelude::*;

verus! {

/// Stereo sample pairs in one audio packet.
pub const FRAMES: usize = 352;

/// Bytes of 16-bit stereo PCM in one audio packet.
pub const PCM_BYTES: usize = 1408;

/// Bytes of one encoded packet.
pub const PACKET_BYTES: usize = 1416;

/// Bits in front of the first sample.
pub const HEADER_BITS: usize = 55;

/// Bit `k` of a byte string, counted from the most significant bit of the first byte.
pub open spec fn bit_of(s: Seq<u8>, k: int) -> bool {
    (s[k / 8] >> ((7 - k % 8) as u8)) & 1 == 1
}

/// The first `n` bits of a byte string.
pub open spec fn bits_of(s: Seq<u8>, n: nat) -> Seq<bool> {
    Seq::new(n, |k: int| bit_of(s, k))
}

/// The low `count` bits of `value`, most significant first.
pub open spec fn field_bits(value: u32, count: nat) -> Seq<bool> {
    Seq::new(count, |i: int| (value >> ((count - 1 - i) as u32)) & 1 == 1)
}

/// The number that up to 32 bits write, most significant first.
pub open spec fn bits_value(bits: Seq<bool>) -> nat
    decreases bits.len(),
{
    if bits.len() == 0 {
        0
    } else {
        2 * bits_value(bits.drop_last()) + if bits.last() {
            1nat
        } else {
            0
        }
    }
}

/// Sample `i` of little-endian 16-bit PCM, channels interleaved.
pub open spec fn sample(pcm: Seq<u8>, i: int) -> u32 {
    (pcm[2 * i] as int + 256 * pcm[2 * i + 1] as int) as u32
}

/// The first `n` samples as 16-bit fields.
pub open spec fn sample_bits(pcm: Seq<u8>, n: nat) -> Seq<bool>
    decreases n,
{
    if n == 0 {
        Seq::empty()
    } else {
        sample_bits(pcm, (n - 1) as nat) + field_bits(sample(pcm, n - 1), 16)
    }
}

/// What stands in front of the samples: a channel pair element with instance tag zero, twelve
/// unused bits, an explicit sample count, no shift, the uncompressed flag and the count itself.
pub open spec fn header_bits() -> Seq<bool> {
    field_bits(1, 3) + field_bits(0, 4) + field_bits(0, 12) + field_bits(1, 1) + field_bits(0, 2)
        + field_bits(1, 1) + field_bits(352, 32)
}

/// All the bits that carry meaning: header, samples, end-of-frame tag.
pub open spec fn frame_bits(pcm: Seq<u8>) -> Seq<bool> {
    header_bits() + sample_bits(pcm, pcm.len() / 2) + field_bits(7, 3)
}

/// Bit `k` of a bit string, with clear bits behind its end.
pub open spec fn padded(bits: Seq<bool>, k: int) -> nat {
    if 0 <= k < bits.len() && bits[k] {
        1
    } else {
        0
    }
}

/// Byte `i` of a bit string, with clear bits behind its end.
pub open spec fn byte_at(bits: Seq<bool>, i: int) -> nat {
    128 * padded(bits, 8 * i) + 64 * padded(bits, 8 * i + 1) + 32 * padded(bits, 8 * i + 2) + 16
        * padded(bits, 8 * i + 3) + 8 * padded(bits, 8 * i + 4) + 4 * padded(bits, 8 * i + 5) + 2
        * padded(bits, 8 * i + 6) + padded(bits, 8 * i + 7)
}

/// The encoded packet: the bits of the frame, padded to whole bytes.
pub open spec fn encoded(pcm: Seq<u8>) -> Seq<u8> {
    Seq::new(PACKET_BYTES as nat, |i: int| byte_at(frame_bits(pcm), i) as u8)
}

/// No bit is set at or after `from`.
pub open spec fn clear_from(s: Seq<u8>, from: int) -> bool {
    forall|k: int| from <= k < 8 * s.len() ==> !#[trigger] bit_of(s, k)
}

proof fn lemma_set_bit(x: u8, p: u8, q: u8, b: u8)
    by (bit_vector)
    requires
        p < 8,
        q < 8,
        b <= 1,
    ensures
        ((x | (b << p)) >> q) & 1 == (if p == q {
            ((x >> p) & 1) | b
        } else {
            (x >> q) & 1
        }),
        (x >> q) & 1 <= 1,
{
}

/// Writes the low `count` bits of `value` at bit position `at`.
fn write_bits(output: &mut Vec<u8>, at: usize, value: u32, count: usize) -> (end: usize)
    requires
        count <= 32,
        at + count <= 8 * old(output)@.len(),
        8 * old(output)@.len() <= usize::MAX,
        clear_from(old(output)@, at as int),
    ensures
        end == at + count,
        final(output)@.len() == old(output)@.len(),
        bits_of(final(output)@, end as nat) == bits_of(old(output)@, at as nat) + field_bits(
            value,
            count as nat,
        ),
        clear_from(final(output)@, end as int),
{
    let mut bit: usize = at;
    let mut left: usize = count;
    while left > 0
        invariant
            left <= count <= 32,
            bit == at + count - left,
            at + count <= 8 * output@.len(),
            output@.len() == old(output)@.len(),
            8 * old(output)@.len() <= usize::MAX,
            bits_of(output@, bit as nat) == bits_of(old(output)@, at as nat) + field_bits(
                value,
                count as nat,
            ).take(count - left),
            clear_from(output@, bit as int),
        decreases left,
    {
        let shift: u32 = (left - 1) as u32;
        let b: u8 = ((value >> shift) & 1) as u8;
        assert((value >> shift) & 1 <= 1) by (bit_vector);
        let index: usize = bit / 8;
        let place: u8 = (7 - bit % 8) as u8;
        let ghost before = output@;
        let byte = output[index];
        output.set(index, byte | (b << place));
        proof {
            assert forall|k: int| 0 <= k < 8 * output@.len() && k != bit implies #[trigger] bit_of(
                output@,
                k,
            ) == bit_of(before, k) by {
                if k / 8 == index {
                    lemma_set_bit(byte, place, (7 - k % 8) as u8, b);
                }
            }
            lemma_set_bit(byte, place, place, b);
            assert(!bit_of(before, bit as int));
            let was = (byte >> place) & 1;
            assert(was == 0);
            assert(0u8 | b == b) by (bit_vector);
            assert(bit_of(output@, bit as int) == (b == 1));
            let field = field_bits(value, count as nat);
            assert(field[count - left] == (b == 1));
            assert(bits_of(output@, (bit + 1) as nat) =~= bits_of(old(output)@, at as nat)
                + field.take(count - left + 1)) by {
                assert forall|k: int| 0 <= k < bit implies #[trigger] bits_of(output@, (bit + 1) as nat)[k]
                    == (bits_of(old(output)@, at as nat) + field.take(count - left + 1))[k] by {
                    assert(bits_of(before, bit as nat)[k] == bit_of(before, k));
                }
            }
        }
        bit = bit + 1;
        left = left - 1;
    }
    assert(field_bits(value, count as nat).take(count as int) == field_bits(value, count as nat));
    bit
}

/// Encodes 352 stereo frames of little-endian 16-bit PCM.
pub fn alac_verbatim(pcm: &[u8]) -> (r: Result<Vec<u8>, Failure>)
    ensures
        pcm@.len() != PCM_BYTES ==> r == Err::<Vec<u8>, Failure>(Failure::PcmLength),
        pcm@.len() == PCM_BYTES ==> r is Ok,
        r matches Ok(packet) ==> packet@ == encoded(pcm@),
{
    if pcm.len() != PCM_BYTES {
        return Err(Failure::PcmLength);
    }
    let mut output: Vec<u8> = Vec::new();
    crate::bytes::push_zeros(&mut output, PACKET_BYTES);
    proof {
        assert forall|k: int| 0 <= k < 8 * output@.len() implies !#[trigger] bit_of(output@, k) by {
            let place = (7 - k % 8) as u8;
            assert((0u8 >> place) & 1 == 0) by (bit_vector);
        }
    }
    let mut bit: usize = write_bits(&mut output, 0, 1, 3);
    bit = write_bits(&mut output, bit, 0, 4);
    bit = write_bits(&mut output, bit, 0, 12);
    bit = write_bits(&mut output, bit, 1, 1);
    bit = write_bits(&mut output, bit, 0, 2);
    bit = write_bits(&mut output, bit, 1, 1);
    bit = write_bits(&mut output, bit, 352, 32);
    assert(bits_of(output@, 55) =~= header_bits());
    let mut done: usize = 0;
    while done < 704
        invariant
            done <= 704,
            pcm@.len() == PCM_BYTES,
            output@.len() == PACKET_BYTES,
            bit == 55 + 16 * done,
            bits_of(output@, bit as nat) == header_bits() + sample_bits(pcm@, done as nat),
            clear_from(output@, bit as int),
        decreases 704 - done,
    {
        let value: u32 = pcm[2 * done] as u32 + 256 * pcm[2 * done + 1] as u32;
        bit = write_bits(&mut output, bit, value, 16);
        done = done + 1;
        assert(bits_of(output@, bit as nat) =~= header_bits() + sample_bits(pcm@, done as nat));
    }
    bit = write_bits(&mut output, bit, 7, 3);
    assert(bits_of(output@, bit as nat) =~= frame_bits(pcm@));
    proof {
        lemma_packed(output@, frame_bits(pcm@));
        assert(output@ =~= encoded(pcm@));
    }
    Ok(output)
}

proof fn lemma_byte_bits(x: u8)
    by (bit_vector)
    ensures
        x == 128 * ((x >> 7) & 1) + 64 * ((x >> 6) & 1) + 32 * ((x >> 5) & 1) + 16 * ((x >> 4) & 1)
            + 8 * ((x >> 3) & 1) + 4 * ((x >> 2) & 1) + 2 * ((x >> 1) & 1) + ((x >> 0) & 1),
        (x >> 7) & 1 <= 1,
        (x >> 6) & 1 <= 1,
        (x >> 5) & 1 <= 1,
        (x >> 4) & 1 <= 1,
        (x >> 3) & 1 <= 1,
        (x >> 2) & 1 <= 1,
        (x >> 1) & 1 <= 1,
        (x >> 0) & 1 <= 1,
{
}

/// Bytes whose bits are the given ones, and clear behind them, are those bits packed.
proof fn lemma_packed(s: Seq<u8>, bits: Seq<bool>)
    requires
        bits.len() <= 8 * s.len(),
        bits_of(s, bits.len()) == bits,
        clear_from(s, bits.len() as int),
    ensures
        forall|i: int| 0 <= i < s.len() ==> #[trigger] s[i] == byte_at(bits, i),
{
    assert forall|k: int| 0 <= k < 8 * s.len() implies padded(bits, k) == (if #[trigger] bit_of(
        s,
        k,
    ) {
        1nat
    } else {
        0
    }) by {
        if k < bits.len() {
            assert(bits_of(s, bits.len())[k] == bit_of(s, k));
        }
    }
    assert forall|i: int| 0 <= i < s.len() implies #[trigger] s[i] == byte_at(bits, i) by {
        lemma_byte_bits(s[i]);
        assert(bit_of(s, 8 * i) == ((s[i] >> 7) & 1 == 1));
        assert(bit_of(s, 8 * i + 1) == ((s[i] >> 6) & 1 == 1));
        assert(bit_of(s, 8 * i + 2) == ((s[i] >> 5) & 1 == 1));
        assert(bit_of(s, 8 * i + 3) == ((s[i] >> 4) & 1 == 1));
        assert(bit_of(s, 8 * i + 4) == ((s[i] >> 3) & 1 == 1));
        assert(bit_of(s, 8 * i + 5) == ((s[i] >> 2) & 1 == 1));
        assert(bit_of(s, 8 * i + 6) == ((s[i] >> 1) & 1 == 1));
        assert(bit_of(s, 8 * i + 7) == ((s[i] >> 0) & 1 == 1));
    }
}

proof fn lemma_unpacked(a: bool, b: bool, c: bool, d: bool, e: bool, f: bool, g: bool, h: bool, x: u8)
    by (bit_vector)
    requires
        x == (if a { 128u8 } else { 0 }) + (if b { 64u8 } else { 0 }) + (if c { 32u8 } else { 0 }) + (
        if d { 16u8 } else { 0 }) + (if e { 8u8 } else { 0 }) + (if f { 4u8 } else { 0 }) + (if g {
            2u8
        } else {
            0
        }) + (if h { 1u8 } else { 0 }),
    ensures
        a == ((x >> 7) & 1 == 1),
        b == ((x >> 6) & 1 == 1),
        c == ((x >> 5) & 1 == 1),
        d == ((x >> 4) & 1 == 1),
        e == ((x >> 3) & 1 == 1),
        f == ((x >> 2) & 1 == 1),
        g == ((x >> 1) & 1 == 1),
        h == ((x >> 0) & 1 == 1),
{
}

/// The bits of a packet are those of its frame.
pub proof fn packet_holds_frame_bits(pcm: Seq<u8>)
    requires
        pcm.len() == PCM_BYTES,
    ensures
        bits_of(encoded(pcm), frame_bits(pcm).len()) == frame_bits(pcm),
{
    let bits = frame_bits(pcm);
    let packet = encoded(pcm);
    lemma_sample_bits_len(pcm, 704);
    assert(header_bits().len() == 55);
    assert(bits.len() == 11322);
    assert forall|k: int| 0 <= k < bits.len() implies #[trigger] bit_of(packet, k) == bits[k] by {
        let i = k / 8;
        let on = |n: int| padded(bits, 8 * i + n) == 1;
        assert(byte_at(bits, i) <= 255);
        lemma_unpacked(on(0), on(1), on(2), on(3), on(4), on(5), on(6), on(7), packet[i]);
        assert(on(k % 8) == bits[k]);
    }
    assert(bits_of(packet, bits.len()) =~= bits);
}

proof fn lemma_sample_bits(pcm: Seq<u8>, n: nat, i: int)
    requires
        0 <= i < n,
    ensures
        sample_bits(pcm, n).len() == 16 * n,
        sample_bits(pcm, n).subrange(16 * i, 16 * i + 16) == field_bits(sample(pcm, i), 16),
    decreases n,
{
    lemma_sample_bits_len(pcm, n);
    lemma_sample_bits_len(pcm, (n - 1) as nat);
    if i < n - 1 {
        lemma_sample_bits(pcm, (n - 1) as nat, i);
        assert(sample_bits(pcm, n).subrange(16 * i, 16 * i + 16) == sample_bits(
            pcm,
            (n - 1) as nat,
        ).subrange(16 * i, 16 * i + 16));
    } else {
        assert(sample_bits(pcm, n).subrange(16 * i, 16 * i + 16) == field_bits(sample(pcm, i), 16));
    }
}

proof fn lemma_sample_bits_len(pcm: Seq<u8>, n: nat)
    ensures
        sample_bits(pcm, n).len() == 16 * n,
    decreases n,
{
    if n > 0 {
        lemma_sample_bits_len(pcm, (n - 1) as nat);
    }
}

proof fn lemma_field_value(value: u32, count: nat)
    requires
        count <= 32,
        value < pow2(count),
    ensures
        bits_value(field_bits(value, count)) == value,
    decreases count,
{
    lemma2_to64();
    if count > 0 {
        let high = value >> 1;
        let n = (count - 1) as nat;
        assert(value >> 1 == value / 2) by (bit_vector);
        lemma_pow2_unfold(count);
        lemma_field_value(high, n);
        let all = field_bits(value, count);
        assert(all.drop_last() =~= field_bits(high, n)) by {
            assert forall|i: int| 0 <= i < n implies all.drop_last()[i] == field_bits(high, n)[i] by {
                let s = (n - 1 - i) as u32;
                assert((value >> 1) >> s == value >> ((s + 1) as u32)) by (bit_vector)
                    requires
                        s < 31,
                ;
            }
        }
        assert((value >> 0u32) & 1 == value % 2) by (bit_vector);
    }
}

/// How many bits of a packet carry meaning.
pub proof fn lemma_frame_len(pcm: Seq<u8>)
    requires
        pcm.len() == PCM_BYTES,
    ensures
        frame_bits(pcm).len() == 55 + 16 * 704 + 3,
{
    lemma_sample_bits_len(pcm, 704);
    assert(header_bits().len() == 55);
}

/// Reading the sixteen bits of any sample of an encoded packet gives that sample back: the
/// encoding loses nothing.
pub proof fn samples_read_back(pcm: Seq<u8>, i: int)
    requires
        pcm.len() == PCM_BYTES,
        0 <= i < 704,
    ensures
        bits_value(
            bits_of(encoded(pcm), frame_bits(pcm).len()).subrange(
                HEADER_BITS + 16 * i,
                HEADER_BITS + 16 * i + 16,
            ),
        ) == pcm[2 * i] as nat + 256 * pcm[2 * i + 1] as nat,
{
    packet_holds_frame_bits(pcm);
    lemma_sample_bits(pcm, 704, i);
    let all = frame_bits(pcm);
    assert(header_bits().len() == 55);
    assert(all.subrange(55 + 16 * i, 55 + 16 * i + 16) =~= sample_bits(pcm, 704).subrange(
        16 * i,
        16 * i + 16,
    ));
    let value = sample(pcm, i);
    lemma2_to64();
    lemma_field_value(value, 16);
}

} // verus!
