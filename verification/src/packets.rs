//! The wire layout of screen video and screen audio packets.

use crate::bytes::{
    be_bytes, le_bytes, lemma_be_bytes_len, lemma_le_bytes_len, push_all, push_be, push_le,
    push_zeros, zeros,
};
use crate::clock::Clock;
use crate::crypto::{max_message, nonce, nonce_of, seal, sealed, unsealed};
use crate::failure::Failure;
use crate::media::{all_nonempty, nal_type, owned};
use vstd::prelude::*;

verus! {

/// Samples a second of the screen audio stream.
pub const AUDIO_RATE: u32 = 44100;

/// The largest video payload, in bytes.
pub const MAX_PAYLOAD: usize = 16777216;

/// The header of a video packet: payload length, kind, timestamp and timeline.
pub open spec fn header_bytes(length: nat, kind: u8, time: nat, timeline: nat) -> Seq<u8> {
    le_bytes(length, 4) + seq![kind] + zeros(3) + le_bytes(time, 8) + zeros(24) + le_bytes(
        timeline,
        8,
    ) + zeros(80)
}

pub proof fn lemma_header_len(length: nat, kind: u8, time: nat, timeline: nat)
    ensures
        header_bytes(length, kind, time, timeline).len() == 128,
{
    lemma_le_bytes_len(length, 4);
    lemma_le_bytes_len(time, 8);
    lemma_le_bytes_len(timeline, 8);
}

fn array_of(bytes: &Vec<u8>) -> (r: [u8; 128])
    requires
        bytes@.len() == 128,
    ensures
        r@ == bytes@,
{
    let mut r: [u8; 128] = [0;128];
    let mut at: usize = 0;
    while at < 128
        invariant
            at <= 128,
            bytes@.len() == 128,
            forall|i: int| 0 <= i < at ==> r@[i] == bytes@[i],
        decreases 128 - at,
    {
        r[at] = bytes[at];
        at = at + 1;
    }
    assert(r@ =~= bytes@);
    r
}

/// Builds a video packet header, where the payload is not too large.
pub fn video_header(length: usize, kind: u8, time: u64, timeline: u64) -> (r: Result<
    [u8; 128],
    Failure,
>)
    ensures
        length > MAX_PAYLOAD ==> r == Err::<[u8; 128], Failure>(Failure::FrameTooLarge),
        length <= MAX_PAYLOAD ==> r is Ok && r->Ok_0@ == header_bytes(
            length as nat,
            kind,
            time as nat,
            timeline as nat,
        ),
{
    if length > MAX_PAYLOAD {
        return Err(Failure::FrameTooLarge);
    }
    let mut h: Vec<u8> = Vec::new();
    push_le(&mut h, length as u64, 4);
    h.push(kind);
    push_zeros(&mut h, 3);
    push_le(&mut h, time, 8);
    push_zeros(&mut h, 24);
    push_le(&mut h, timeline, 8);
    push_zeros(&mut h, 80);
    proof {
        lemma_header_len(length as nat, kind, time as nat, timeline as nat);
        assert(h@ =~= header_bytes(length as nat, kind, time as nat, timeline as nat));
    }
    Ok(array_of(&h))
}

/// A video packet: the header, then the payload sealed under the packet's own nonce with the
/// whole header authenticated.
pub open spec fn sealed_video(key: Seq<u8>, header: Seq<u8>, counter: nat, data: Seq<u8>) -> Seq<u8> {
    header + sealed(key, nonce_of(counter), data, header)
}

/// What a receiver reads from a video packet: its header, and the payload if it opens under the
/// nonce of the packet's number with the header authenticated.
pub open spec fn opened_video(key: Seq<u8>, counter: nat, packet: Seq<u8>) -> (Seq<u8>, Option<
    Seq<u8>,
>) {
    let header = packet.take(128);
    (header, unsealed(key, nonce_of(counter), packet.skip(128), header))
}

/// Seals a video packet. Opening it under the same key and number gives back the header and the
/// payload.
pub fn seal_video(key: &[u8; 32], header: &[u8; 128], counter: u64, data: &[u8]) -> (r: Result<
    Vec<u8>,
    Failure,
>)
    requires
        data@.len() <= max_message(),
    ensures
        r is Ok,
        r->Ok_0@ == sealed_video(key@, header@, counter as nat, data@),
        r->Ok_0@.len() == 128 + data@.len() + 16,
        opened_video(key@, counter as nat, r->Ok_0@) == (header@, Some(data@)),
{
    let mut packet: Vec<u8> = Vec::new();
    push_all(&mut packet, header.as_slice());
    match seal(key, &nonce(counter), data, header.as_slice()) {
        Some(body) => {
            push_all(&mut packet, &body);
            assert(packet@ =~= sealed_video(key@, header@, counter as nat, data@));
            assert(packet@.take(128) =~= header@);
            assert(packet@.skip(128) =~= body@);
            Ok(packet)
        },
        None => Err(Failure::VideoEncryption),
    }
}

/// The decoder configuration for a pair of parameter sets.
pub open spec fn configuration(sps: Seq<u8>, pps: Seq<u8>) -> Seq<u8> {
    seq![1u8, sps[1], sps[2], sps[3], 0xffu8, 0xe1u8] + be_bytes(sps.len(), 2) + sps + seq![1u8]
        + be_bytes(pps.len(), 2) + pps
}

/// Parameter sets that a decoder configuration can hold.
pub open spec fn valid_parameter_sets(sps: Seq<u8>, pps: Seq<u8>) -> bool {
    4 <= sps.len() <= 65535 && 1 <= pps.len() <= 65535
}

pub fn avcc_config(sps: &[u8], pps: &[u8]) -> (r: Result<Vec<u8>, Failure>)
    ensures
        !valid_parameter_sets(sps@, pps@) ==> r == Err::<Vec<u8>, Failure>(Failure::ParameterSets),
        valid_parameter_sets(sps@, pps@) ==> r is Ok && r->Ok_0@ == configuration(sps@, pps@),
{
    if sps.len() < 4 || sps.len() > 65535 || pps.len() == 0 || pps.len() > 65535 {
        return Err(Failure::ParameterSets);
    }
    let mut config: Vec<u8> = Vec::new();
    config.push(1);
    config.push(sps[1]);
    config.push(sps[2]);
    config.push(sps[3]);
    config.push(0xff);
    config.push(0xe1);
    push_be(&mut config, sps.len() as u64, 2);
    push_all(&mut config, sps);
    config.push(1);
    push_be(&mut config, pps.len() as u64, 2);
    push_all(&mut config, pps);
    assert(config@ =~= configuration(sps@, pps@));
    Ok(config)
}

/// `base` with the bytes from `at` on replaced by `part`.
pub open spec fn spliced(base: Seq<u8>, at: int, part: Seq<u8>) -> Seq<u8> {
    base.take(at) + part + base.skip(at + part.len())
}

fn place(bytes: &mut [u8; 128], at: usize, part: &[u8; 8])
    requires
        at <= 120,
    ensures
        final(bytes)@ == spliced(old(bytes)@, at as int, part@),
{
    let mut i: usize = 0;
    while i < 8
        invariant
            i <= 8,
            at <= 120,
            forall|k: int| 0 <= k < 128 && !(at <= k < at + i) ==> bytes@[k] == old(bytes)@[k],
            forall|k: int| at <= k < at + i ==> bytes@[k] == part@[k - at],
        decreases 8 - i,
    {
        bytes[at + i] = part[i];
        i = i + 1;
    }
    assert(bytes@ =~= spliced(old(bytes)@, at as int, part@));
}

/// The packet that announces a decoder configuration and the picture dimensions.
pub open spec fn config_packet(config: Seq<u8>, time: nat, dimensions: Seq<u8>) -> Seq<u8> {
    let base = header_bytes(config.len(), 1, time, 0).update(6, 0x16).update(7, 1);
    spliced(spliced(spliced(base, 16, dimensions), 40, dimensions), 56, dimensions) + config
}

/// Builds the configuration packet. `dimensions` is the width and the height, each as the four
/// little-endian bytes of a single-precision number.
pub fn build_config_packet(config: &Vec<u8>, time: u64, dimensions: &[u8; 8]) -> (r: Result<
    Vec<u8>,
    Failure,
>)
    ensures
        config@.len() > MAX_PAYLOAD ==> r == Err::<Vec<u8>, Failure>(Failure::FrameTooLarge),
        config@.len() <= MAX_PAYLOAD ==> r is Ok && r->Ok_0@ == config_packet(
            config@,
            time as nat,
            dimensions@,
        ),
{
    let mut header = match video_header(config.len(), 1, time, 0) {
        Ok(header) => header,
        Err(failure) => {
            return Err(failure);
        },
    };
    header[6] = 0x16;
    header[7] = 1;
    place(&mut header, 16, dimensions);
    place(&mut header, 40, dimensions);
    place(&mut header, 56, dimensions);
    let mut packet: Vec<u8> = Vec::new();
    push_all(&mut packet, header.as_slice());
    push_all(&mut packet, config);
    assert(packet@ =~= config_packet(config@, time as nat, dimensions@));
    Ok(packet)
}

/// Parameter sets and delimiters travel outside the picture payload.
pub open spec fn is_picture_unit(unit: Seq<u8>) -> bool {
    nal_type(unit) != 7 && nal_type(unit) != 8 && nal_type(unit) != 9
}

/// The picture payload: each remaining unit behind its length.
pub open spec fn picture_bytes(units: Seq<Seq<u8>>) -> Seq<u8>
    decreases units.len(),
{
    if units.len() == 0 {
        Seq::empty()
    } else {
        let unit = units.last();
        if is_picture_unit(unit) {
            picture_bytes(units.drop_last()) + be_bytes(unit.len(), 4) + unit
        } else {
            picture_bytes(units.drop_last())
        }
    }
}

pub fn picture_payload(units: &Vec<Vec<u8>>) -> (r: Vec<u8>)
    requires
        all_nonempty(owned(units@)),
    ensures
        r@ == picture_bytes(owned(units@)),
{
    let ghost all = owned(units@);
    let mut data: Vec<u8> = Vec::new();
    let mut at: usize = 0;
    while at < units.len()
        invariant
            at <= units@.len(),
            all == owned(units@),
            all_nonempty(all),
            data@ == picture_bytes(all.take(at as int)),
        decreases units@.len() - at,
    {
        let unit = &units[at];
        assert(all[at as int] == unit@);
        proof {
            let longer = all.take(at + 1);
            assert(longer.drop_last() == all.take(at as int));
            assert(longer.last() == unit@);
        }
        let kind = unit[0] & 31;
        if kind != 7 && kind != 8 && kind != 9 {
            push_be(&mut data, unit.len() as u64, 4);
            push_all(&mut data, unit);
        }
        at = at + 1;
    }
    assert(all.take(at as int) == all);
    data
}

/// The packet that keeps the video connection alive.
pub open spec fn keepalive_bytes() -> Seq<u8> {
    zeros(128).update(4, 2).update(6, 0x1e)
}

pub fn keepalive_packet() -> (r: Vec<u8>)
    ensures
        r@ == keepalive_bytes(),
{
    let mut packet: Vec<u8> = Vec::new();
    push_zeros(&mut packet, 128);
    packet.set(4, 2);
    packet.set(6, 0x1e);
    assert(packet@ =~= keepalive_bytes());
    packet
}

/// The RTP header of an audio packet.
pub open spec fn audio_header(sequence: nat, rtp: nat, ssrc: nat) -> Seq<u8> {
    seq![0x80u8, 96u8] + be_bytes(sequence, 2) + be_bytes(rtp, 4) + be_bytes(ssrc, 4)
}

/// An audio packet: RTP header, sealed payload, packet number. The RTP time and the source are
/// authenticated.
pub open spec fn audio_packet(
    key: Seq<u8>,
    counter: nat,
    sequence: nat,
    rtp: nat,
    ssrc: nat,
    payload: Seq<u8>,
) -> Seq<u8> {
    audio_header(sequence, rtp, ssrc) + sealed(
        key,
        nonce_of(counter),
        payload,
        be_bytes(rtp, 4) + be_bytes(ssrc, 4),
    ) + le_bytes(counter, 8)
}

/// What a receiver reads from an audio packet: its header, and the payload if it opens under the
/// nonce made of the last eight bytes, with the RTP time and the source authenticated.
pub open spec fn opened_audio(key: Seq<u8>, packet: Seq<u8>) -> (Seq<u8>, Option<Seq<u8>>) {
    let header = packet.take(12);
    let end = packet.len() - 8;
    (
        header,
        unsealed(key, zeros(4) + packet.skip(end), packet.subrange(12, end), header.skip(4)),
    )
}

/// Builds an audio packet. Opening it under the same key gives back the header and the payload.
pub fn build_audio_packet(
    key: &[u8; 32],
    counter: u64,
    sequence: u16,
    rtp: u32,
    ssrc: u32,
    payload: &Vec<u8>,
) -> (r: Result<Vec<u8>, Failure>)
    requires
        payload@.len() <= max_message(),
    ensures
        r is Ok,
        r->Ok_0@ == audio_packet(
            key@,
            counter as nat,
            sequence as nat,
            rtp as nat,
            ssrc as nat,
            payload@,
        ),
        r->Ok_0@.len() == 12 + payload@.len() + 16 + 8,
        opened_audio(key@, r->Ok_0@) == (
            audio_header(sequence as nat, rtp as nat, ssrc as nat),
            Some(payload@),
        ),
{
    let mut associated: Vec<u8> = Vec::new();
    push_be(&mut associated, rtp as u64, 4);
    push_be(&mut associated, ssrc as u64, 4);
    proof {
        assert(associated@ =~= be_bytes(rtp as nat, 4) + be_bytes(ssrc as nat, 4));
        lemma_be_bytes_len(rtp as nat, 4);
        lemma_be_bytes_len(ssrc as nat, 4);
        lemma_be_bytes_len(sequence as nat, 2);
        lemma_le_bytes_len(counter as nat, 8);
    }
    let mut packet: Vec<u8> = Vec::new();
    packet.push(0x80);
    packet.push(96);
    push_be(&mut packet, sequence as u64, 2);
    push_all(&mut packet, &associated);
    assert(packet@ =~= audio_header(sequence as nat, rtp as nat, ssrc as nat));
    match seal(key, &nonce(counter), payload, &associated) {
        Some(body) => {
            let ghost header = packet@;
            push_all(&mut packet, &body);
            push_le(&mut packet, counter, 8);
            proof {
                let end = packet@.len() - 8;
                assert(packet@.take(12) =~= header);
                assert(header.skip(4) =~= associated@);
                assert(packet@.subrange(12, end) =~= body@);
                assert(packet@.skip(end) =~= le_bytes(counter as nat, 8));
            }
            Ok(packet)
        },
        None => Err(Failure::AudioEncryption),
    }
}

/// `a - b` on a 32-bit counter that wraps.
pub open spec fn rtp_minus(a: int, b: int) -> nat {
    ((a - b) % 0x1_0000_0000) as nat
}

/// `a + b` on a 32-bit counter that wraps.
pub open spec fn rtp_plus(a: int, b: int) -> nat {
    ((a + b) % 0x1_0000_0000) as nat
}

/// Going back by the playback lead and forward again ends where it began, also where the
/// counter wraps.
pub proof fn rtp_offset_wraps_back(rtp: u32, samples: u32)
    ensures
        rtp_plus(rtp_minus(rtp as int, samples as int) as int, samples as int) == rtp,
{
}

/// A timing announcement: which sample plays at which time of which timeline.
pub open spec fn sync_bytes(first: bool, rtp: nat, lead: nat, time: nat, timeline: nat) -> Seq<u8> {
    seq![
        if first {
            0x90u8
        } else {
            0x80u8
        },
        0xd7u8,
        0u8,
        4u8,
    ] + be_bytes(rtp_minus(rtp as int, lead as int), 4) + be_bytes(time, 8) + be_bytes(rtp, 4)
        + be_bytes(timeline, 8)
}

/// Builds the announcement for sample `rtp` captured at `moment`.
pub fn sync_packet(clock: &Clock, first: bool, rtp: u32, lead: u32, moment: u64) -> (r: Vec<u8>)
    ensures
        r@ == sync_bytes(
            first,
            rtp as nat,
            lead as nat,
            clock.reading(moment as int) as nat,
            clock.timeline as nat,
        ),
{
    let mut packet: Vec<u8> = Vec::new();
    packet.push(
        if first {
            0x90
        } else {
            0x80
        },
    );
    packet.push(0xd7);
    packet.push(0);
    packet.push(4);
    push_be(&mut packet, rtp.wrapping_sub(lead) as u64, 4);
    push_be(&mut packet, clock.at(moment as u128), 8);
    push_be(&mut packet, rtp as u64, 4);
    push_be(&mut packet, clock.timeline, 8);
    assert(packet@ =~= sync_bytes(
        first,
        rtp as nat,
        lead as nat,
        clock.reading(moment as int) as nat,
        clock.timeline as nat,
    ));
    packet
}

} // verus!
