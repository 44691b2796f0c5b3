//! What a receiver reads from the packets of a stream.

use crate::alac::{
    bit_of, bits_of, bits_value, encoded, frame_bits, lemma_frame_len, packet_holds_frame_bits,
    samples_read_back,
};
use crate::bytes::{
    be_bytes, be_bytes_read_back, be_value, byte_range, le_bytes, le_bytes_read_back, le_value,
    lemma_be_bytes_len, lemma_le_bytes_len, zeros,
};
use crate::clock::{fixed_time_keeps_nanoseconds, nanos_of, two_64, Clock};
use crate::crypto::{nonce_of, sealed};
use crate::failure::Failure;
use crate::media::{first_of_type, has_type, nal_type};
use crate::mirror::{picture_header, playback_stamp, IncomingView, SessionView, StreamEndView};
use crate::packets::{
    audio_packet, config_packet, configuration, header_bytes, lemma_header_len, opened_audio,
    opened_video, picture_bytes, rtp_minus, rtp_plus, sealed_video, valid_parameter_sets,
};
use vstd::prelude::*;

verus! {

/// The number that the bytes from `from` to `to` write, least significant first.
pub open spec fn le_at(packet: Seq<u8>, from: int, to: int) -> nat {
    le_value(packet.subrange(from, to))
}

/// The number that the bytes from `from` to `to` write, most significant first.
pub open spec fn be_at(packet: Seq<u8>, from: int, to: int) -> nat {
    be_value(packet.subrange(from, to))
}

/// Reads a run of units, each behind its length in four bytes.
pub open spec fn read_units(payload: Seq<u8>) -> Option<Seq<Seq<u8>>>
    decreases payload.len(),
{
    if payload.len() == 0 {
        Some(Seq::empty())
    } else if payload.len() < 4 || be_at(payload, 0, 4) > payload.len() - 4 {
        None
    } else {
        let end = 4 + be_at(payload, 0, 4);
        match read_units(payload.skip(end as int)) {
            None => None,
            Some(rest) => Some(seq![payload.subrange(4, end as int)] + rest),
        }
    }
}

/// A unit that belongs to the picture: no parameter set and no delimiter.
pub open spec fn shows(unit: Seq<u8>) -> bool {
    unit[0] % 32 != 7 && unit[0] % 32 != 8 && unit[0] % 32 != 9
}

/// The units of a frame that belong to the picture, in order.
pub open spec fn shown(units: Seq<Seq<u8>>) -> Seq<Seq<u8>> {
    units.filter(|unit: Seq<u8>| shows(unit))
}

/// The bytes that units take up, each behind its length in four bytes.
pub open spec fn room(units: Seq<Seq<u8>>) -> nat
    decreases units.len(),
{
    if units.len() == 0 {
        0
    } else {
        room(units.drop_last()) + 4 + units.last().len()
    }
}

proof fn lemma_low_bits(x: u8)
    by (bit_vector)
    ensures
        x & 31 == x % 32,
{
}

proof fn lemma_ranges()
    ensures
        byte_range(2) == 0x1_0000,
        byte_range(4) == 0x1_0000_0000,
        byte_range(8) == two_64(),
{
    reveal_with_fuel(byte_range, 9);
}

proof fn lemma_read_one_more(front: Seq<u8>, unit: Seq<u8>)
    requires
        read_units(front) is Some,
        unit.len() < 0x1_0000_0000,
    ensures
        read_units(front + be_bytes(unit.len(), 4) + unit) == Some(
            read_units(front)->0.push(unit),
        ),
    decreases front.len(),
{
    let length = be_bytes(unit.len(), 4);
    let all = front + length + unit;
    lemma_be_bytes_len(unit.len(), 4);
    lemma_ranges();
    be_bytes_read_back(unit.len(), 4);
    if front.len() == 0 {
        assert(all.subrange(0, 4) =~= length);
        assert(all.subrange(4, 4 + unit.len() as int) =~= unit);
        assert(all.skip(4 + unit.len() as int) =~= Seq::<u8>::empty());
        assert(read_units(all.skip(4 + unit.len() as int)) == Some(Seq::<Seq<u8>>::empty()));
        assert(seq![unit] + Seq::<Seq<u8>>::empty() =~= Seq::<Seq<u8>>::empty().push(unit));
    } else {
        let end = 4 + be_at(front, 0, 4);
        let rest = front.skip(end as int);
        lemma_read_one_more(rest, unit);
        assert(all.subrange(0, 4) =~= front.subrange(0, 4));
        assert(all.subrange(4, end as int) =~= front.subrange(4, end as int));
        assert(all.skip(end as int) =~= rest + length + unit);
        let first = front.subrange(4, end as int);
        assert(seq![first] + read_units(rest)->0.push(unit) =~= (seq![first] + read_units(
            rest,
        )->0).push(unit));
    }
}

/// A receiver that reads the payload of a picture as units behind their lengths gets every unit of
/// the frame that belongs to the picture, in order and unchanged, and nothing else.
pub proof fn picture_units_read_back(units: Seq<Seq<u8>>)
    requires
        forall|i: int|
            0 <= i < units.len() && shows(#[trigger] units[i]) ==> units[i].len() < 0x1_0000_0000,
    ensures
        read_units(picture_bytes(units)) == Some(shown(units)),
        picture_bytes(units).len() == room(shown(units)),
    decreases units.len(),
{
    reveal(Seq::filter);
    if units.len() > 0 {
        let earlier = units.drop_last();
        let unit = units.last();
        assert forall|i: int| 0 <= i < earlier.len() && shows(#[trigger] earlier[i]) implies earlier[i].len()
            < 0x1_0000_0000 by {
            assert(earlier[i] == units[i]);
        }
        picture_units_read_back(earlier);
        lemma_low_bits(unit[0]);
        lemma_be_bytes_len(unit.len(), 4);
        if shows(unit) {
            assert(unit == units[units.len() - 1]);
            lemma_read_one_more(picture_bytes(earlier), unit);
            assert(shown(units) =~= shown(earlier).push(unit));
            assert(shown(units).drop_last() =~= shown(earlier));
        } else {
            assert(shown(units) =~= shown(earlier));
        }
    } else {
        assert(shown(units) =~= Seq::empty());
    }
}

/// No unit of a picture is longer than its payload.
pub proof fn lemma_units_fit(units: Seq<Seq<u8>>)
    ensures
        forall|i: int|
            0 <= i < units.len() && shows(#[trigger] units[i]) ==> units[i].len()
                <= picture_bytes(units).len(),
    decreases units.len(),
{
    if units.len() > 0 {
        let earlier = units.drop_last();
        lemma_units_fit(earlier);
        lemma_low_bits(units.last()[0]);
        assert forall|i: int| 0 <= i < units.len() && shows(#[trigger] units[i]) implies units[i].len()
            <= picture_bytes(units).len() by {
            if i < earlier.len() {
                assert(earlier[i] == units[i]);
            }
        }
    }
}

/// A frame has a payload exactly where one of its units belongs to the picture.
pub proof fn lemma_shown_iff_payload(units: Seq<Seq<u8>>)
    ensures
        shown(units).len() == 0 <==> picture_bytes(units).len() == 0,
    decreases units.len(),
{
    reveal(Seq::filter);
    if units.len() > 0 {
        lemma_shown_iff_payload(units.drop_last());
        lemma_low_bits(units.last()[0]);
        lemma_be_bytes_len(units.last().len(), 4);
    }
}

/// A receiver that opens the packet under the session's key and next number reads the picture of
/// the frame from it.
pub open spec fn opens_to_picture(session: SessionView, packet: Seq<u8>, units: Seq<Seq<u8>>) -> bool {
    opened_video(session.video_key, session.video_counter, packet).1 matches Some(payload)
        && read_units(payload) == Some(shown(units))
}

/// A receiver that opens the packet under the session's audio key hears the captured sound.
pub open spec fn opens_to_sound(session: SessionView, packet: Seq<u8>, pcm: Seq<u8>) -> bool {
    opened_audio(session.audio_key, packet).1 matches Some(frame) && sounds_like(frame, pcm)
}

/// The receiver's time, in nanoseconds, at which a frame captured at `time` is to be played: what
/// its clock shows at that moment, and the lead that was asked for.
pub open spec fn due(session: SessionView, clock: Clock, time: int) -> int {
    clock.nanos + (time - clock.anchor) + session.latency.lead_millis() * 1_000_000
}

/// The fixed-point form of a stamp can hold the time of playback.
pub open spec fn can_be_stamped(session: SessionView, clock: Clock, time: int) -> bool {
    0 <= due(session, clock, time) < 0x1_0000_0000 * 1_000_000_000
}

proof fn lemma_header_fields(length: nat, kind: u8, time: nat, timeline: nat)
    requires
        length < 0x1_0000_0000,
        time < two_64(),
        timeline < two_64(),
    ensures
        ({
            let header = header_bytes(length, kind, time, timeline);
            &&& header.len() == 128
            &&& le_at(header, 0, 4) == length
            &&& header[4] == kind
            &&& le_at(header, 8, 16) == time
            &&& le_at(header, 40, 48) == timeline
            &&& forall|i: int|
                4 < i < 128 && !(8 <= i < 16) && !(40 <= i < 48) ==> #[trigger] header[i] == 0
        }),
{
    let header = header_bytes(length, kind, time, timeline);
    lemma_header_len(length, kind, time, timeline);
    lemma_le_bytes_len(length, 4);
    lemma_le_bytes_len(time, 8);
    lemma_le_bytes_len(timeline, 8);
    lemma_ranges();
    le_bytes_read_back(length, 4);
    le_bytes_read_back(time, 8);
    le_bytes_read_back(timeline, 8);
    assert(header.subrange(0, 4) =~= le_bytes(length, 4));
    assert(header.subrange(8, 16) =~= le_bytes(time, 8));
    assert(header.subrange(40, 48) =~= le_bytes(timeline, 8));
}

/// The header of a packet with a picture: how much follows, no kind, whether decoding can begin
/// there, when it plays, and on which timeline. Nothing else is set.
pub open spec fn heads_picture(
    header: Seq<u8>,
    session: SessionView,
    clock: Clock,
    time: int,
    units: Seq<Seq<u8>>,
) -> bool {
    let keyframe = exists|i: int| 0 <= i < units.len() && (#[trigger] units[i])[0] % 32 == 5;
    &&& header.len() == 128
    &&& le_at(header, 0, 4) == room(shown(units)) + 16
    &&& header[5] == (if keyframe {
        0x10u8
    } else {
        0u8
    })
    &&& nanos_of(le_at(header, 8, 16) as int) == due(session, clock, time)
    &&& le_at(header, 40, 48) == clock.timeline
    &&& forall|i: int|
        4 <= i < 128 && i != 5 && !(8 <= i < 16) && !(40 <= i < 48) ==> #[trigger] header[i] == 0
}

proof fn lemma_stamp(session: SessionView, clock: Clock, time: int)
    requires
        can_be_stamped(session, clock, time),
    ensures
        ({
            let stamp = playback_stamp(session.latency, clock, time);
            stamp < two_64() && nanos_of(stamp as int) == due(session, clock, time)
        }),
{
    let nanos = due(session, clock, time);
    vstd::arithmetic::div_mod::lemma_small_mod(nanos as nat, two_64() as nat);
    fixed_time_keeps_nanoseconds(nanos as u64);
    assert(clock.reading(time + session.latency.lead_millis() * 1_000_000) == nanos);
}

proof fn lemma_keyframe(units: Seq<Seq<u8>>)
    ensures
        has_type(units, 5) <==> exists|i: int|
            0 <= i < units.len() && (#[trigger] units[i])[0] % 32 == 5,
{
    if has_type(units, 5) {
        let i = choose|i: int| 0 <= i < units.len() && nal_type(#[trigger] units[i]) == 5;
        lemma_low_bits(units[i][0]);
        assert(units[i][0] % 32 == 5);
    }
    if exists|i: int| 0 <= i < units.len() && (#[trigger] units[i])[0] % 32 == 5 {
        let i = choose|i: int| 0 <= i < units.len() && (#[trigger] units[i])[0] % 32 == 5;
        lemma_low_bits(units[i][0]);
        assert(nal_type(units[i]) == 5);
    }
}

/// What the video connection is given for a frame: one packet with the picture comes last. Its
/// header tells when the frame plays, on the receiver's clock, and its body is the picture sealed
/// under the session's key and the next number, with that header authenticated.
pub proof fn pictures_are_sent_whole_and_in_time(
    session: SessionView,
    clock: Clock,
    time: nat,
    units: Seq<Seq<u8>>,
)
    requires
        shown(units).len() > 0,
        session.turn(clock, IncomingView::Video { time, units }).1.failure is None,
        can_be_stamped(session, clock, time as int),
    ensures
        ({
            let (next, done) = session.turn(clock, IncomingView::Video { time, units });
            let packet = done.video.last();
            let header = packet.take(128);
            &&& 1 <= done.video.len() <= 2
            &&& heads_picture(header, session, clock, time as int, units)
            &&& exists|payload: Seq<u8>|
                {
                    &&& packet == header + #[trigger] sealed(
                        session.video_key,
                        zeros(4) + le_bytes(session.video_counter, 8),
                        payload,
                        header,
                    )
                    &&& read_units(payload) == Some(shown(units))
                }
            &&& next.video_counter == session.video_counter + 1
        }),
{
    let (next, done) = session.turn(clock, IncomingView::Video { time, units });
    let payload = picture_bytes(units);
    let stamp = playback_stamp(session.latency, clock, time as int);
    let header = picture_header(units, stamp, clock.timeline as nat);
    lemma_shown_iff_payload(units);
    lemma_units_fit(units);
    picture_units_read_back(units);
    lemma_stamp(session, clock, time as int);
    lemma_keyframe(units);
    let plain = header_bytes(payload.len() + 16, 0, stamp, clock.timeline as nat);
    lemma_header_fields(payload.len() + 16, 0, stamp, clock.timeline as nat);
    assert(header.subrange(0, 4) =~= plain.subrange(0, 4));
    assert(header.subrange(8, 16) =~= plain.subrange(8, 16));
    assert(header.subrange(40, 48) =~= plain.subrange(40, 48));
    let packet = sealed_video(session.video_key, header, session.video_counter, payload);
    assert(done.video.last() == packet);
    assert(packet.take(128) =~= header);
    assert(packet == header + sealed(
        session.video_key,
        nonce_of(session.video_counter),
        payload,
        header,
    ));
}

/// Frames captured later play later, by the time between their captures, as long as the clock is
/// not set anew.
pub proof fn stamps_are_as_far_apart_as_captures(
    session: SessionView,
    other: SessionView,
    clock: Clock,
    time: nat,
    later: nat,
    units: Seq<Seq<u8>>,
    others: Seq<Seq<u8>>,
)
    requires
        session.latency == other.latency,
        shown(units).len() > 0,
        shown(others).len() > 0,
        session.turn(clock, IncomingView::Video { time, units }).1.failure is None,
        other.turn(clock, IncomingView::Video { time: later, units: others }).1.failure is None,
        can_be_stamped(session, clock, time as int),
        can_be_stamped(other, clock, later as int),
    ensures
        ({
            let first = session.turn(clock, IncomingView::Video { time, units }).1.video.last();
            let second = other.turn(
                clock,
                IncomingView::Video { time: later, units: others },
            ).1.video.last();
            nanos_of(le_at(second, 8, 16) as int) - nanos_of(le_at(first, 8, 16) as int) == later
                - time
        }),
{
    pictures_are_sent_whole_and_in_time(session, clock, time, units);
    pictures_are_sent_whole_and_in_time(other, clock, later, others);
    let first = session.turn(clock, IncomingView::Video { time, units }).1.video.last();
    let second = other.turn(
        clock,
        IncomingView::Video { time: later, units: others },
    ).1.video.last();
    assert(first.take(128).subrange(8, 16) =~= first.subrange(8, 16));
    assert(second.take(128).subrange(8, 16) =~= second.subrange(8, 16));
}

/// The parameter sets that a decoder configuration holds.
pub open spec fn read_configuration(config: Seq<u8>) -> Option<(Seq<u8>, Seq<u8>)> {
    let middle = 8 + be_at(config, 6, 8);
    let start = middle + 3;
    if config.len() < 8 || config.len() < start || config.len() != start + be_at(
        config,
        middle as int + 1,
        start as int,
    ) || config[0] != 1 || config[4] != 0xff || config[5] != 0xe1 || config[middle as int] != 1 {
        None
    } else {
        Some((config.subrange(8, middle as int), config.skip(start as int)))
    }
}

/// `unit` is the first of `units` that has the given type.
pub open spec fn comes_first(units: Seq<Seq<u8>>, kind: u8, unit: Seq<u8>) -> bool {
    exists|i: int|
        {
            &&& 0 <= i < units.len()
            &&& #[trigger] units[i] == unit
            &&& unit[0] % 32 == kind
            &&& forall|j: int| 0 <= j < i ==> (#[trigger] units[j])[0] % 32 != kind
        }
}

proof fn lemma_comes_first(units: Seq<Seq<u8>>, kind: u8, unit: Seq<u8>)
    requires
        comes_first(units, kind, unit),
    ensures
        first_of_type(units, kind) == Some(unit),
    decreases units.len(),
{
    let i = choose|i: int|
        {
            &&& 0 <= i < units.len()
            &&& #[trigger] units[i] == unit
            &&& unit[0] % 32 == kind
            &&& forall|j: int| 0 <= j < i ==> (#[trigger] units[j])[0] % 32 != kind
        };
    lemma_low_bits(units[0][0]);
    if i > 0 {
        let rest = units.drop_first();
        assert(units[0][0] % 32 != kind);
        assert(rest[i - 1] == unit);
        assert forall|j: int| 0 <= j < i - 1 implies (#[trigger] rest[j])[0] % 32 != kind by {
            assert(rest[j] == units[j + 1]);
        }
        assert(comes_first(rest, kind, unit));
        lemma_comes_first(rest, kind, unit);
    }
}

/// A decoder configuration holds the parameter sets that it was made from, and the profile and
/// level that the first of them names.
pub proof fn configurations_read_back(sps: Seq<u8>, pps: Seq<u8>)
    requires
        4 <= sps.len() <= 65535,
        1 <= pps.len() <= 65535,
    ensures
        read_configuration(configuration(sps, pps)) == Some((sps, pps)),
        configuration(sps, pps).subrange(1, 4) == sps.subrange(1, 4),
{
    let config = configuration(sps, pps);
    lemma_be_bytes_len(sps.len(), 2);
    lemma_be_bytes_len(pps.len(), 2);
    lemma_ranges();
    be_bytes_read_back(sps.len(), 2);
    be_bytes_read_back(pps.len(), 2);
    let middle = 8 + sps.len() as int;
    assert(config.subrange(6, 8) =~= be_bytes(sps.len(), 2));
    assert(config.subrange(8, middle) =~= sps);
    assert(config.subrange(middle + 1, middle + 3) =~= be_bytes(pps.len(), 2));
    assert(config.skip(middle + 3) =~= pps);
    assert(config[middle] == 1);
    assert(config.subrange(1, 4) =~= sps.subrange(1, 4));
}

/// A frame that brings parameter sets is preceded by a packet with them, unless the receiver has
/// them already: that packet tells their length, the time of playback and three times the picture
/// dimensions, and a decoder reads the first two parameter sets of the frame from its body.
pub proof fn parameter_sets_reach_the_decoder(
    session: SessionView,
    clock: Clock,
    time: nat,
    units: Seq<Seq<u8>>,
    sps: Seq<u8>,
    pps: Seq<u8>,
)
    requires
        comes_first(units, 7, sps),
        comes_first(units, 8, pps),
        4 <= sps.len() <= 65535,
        1 <= pps.len() <= 65535,
        session.dimensions.len() == 8,
        can_be_stamped(session, clock, time as int),
    ensures
        ({
            let (next, done) = session.turn(clock, IncomingView::Video { time, units });
            let packet = done.video[0];
            &&& next.codec matches Some(config) && read_configuration(config) == Some((sps, pps))
                && config.subrange(1, 4) == sps.subrange(1, 4) && (session.codec != Some(config)
                ==> {
                &&& done.video.len() > 0
                &&& le_at(packet, 0, 4) == packet.len() - 128
                &&& packet[4] == 1
                &&& packet[5] == 0
                &&& packet[6] == 0x16
                &&& packet[7] == 1
                &&& nanos_of(le_at(packet, 8, 16) as int) == due(session, clock, time as int)
                &&& packet.subrange(16, 24) == session.dimensions
                &&& packet.subrange(40, 48) == session.dimensions
                &&& packet.subrange(56, 64) == session.dimensions
                &&& packet.skip(128) == config
            })
            &&& session.codec == next.codec ==> done.video.len() <= 1
        }),
{
    let stamp = playback_stamp(session.latency, clock, time as int);
    let config = configuration(sps, pps);
    lemma_comes_first(units, 7, sps);
    lemma_comes_first(units, 8, pps);
    configurations_read_back(sps, pps);
    lemma_stamp(session, clock, time as int);
    lemma_be_bytes_len(sps.len(), 2);
    lemma_be_bytes_len(pps.len(), 2);
    assert(valid_parameter_sets(sps, pps));
    let plain = header_bytes(config.len(), 1, stamp, 0);
    lemma_header_fields(config.len(), 1, stamp, 0);
    let packet = config_packet(config, stamp, session.dimensions);
    assert(packet.len() == 128 + config.len());
    assert(packet.subrange(0, 4) =~= plain.subrange(0, 4));
    assert(packet.subrange(8, 16) =~= plain.subrange(8, 16));
    assert(packet.subrange(16, 24) =~= session.dimensions);
    assert(packet.subrange(40, 48) =~= session.dimensions);
    assert(packet.subrange(56, 64) =~= session.dimensions);
    assert(packet.skip(128) =~= config);
    assert(packet[5] == plain[5]);
}

/// Sample `i` of an uncompressed frame: the sixteen bits behind the header and the samples before.
pub open spec fn frame_sample(frame: Seq<u8>, i: int) -> nat {
    bits_value(Seq::new(16, |k: int| bit_of(frame, 55 + 16 * i + k)))
}

/// A decoder gets the captured samples from a frame, every one of both channels.
pub open spec fn sounds_like(frame: Seq<u8>, pcm: Seq<u8>) -> bool {
    forall|i: int|
        0 <= i < 704 ==> #[trigger] frame_sample(frame, i) == pcm[2 * i] as nat + 256 * pcm[2 * i
            + 1] as nat
}

/// An encoded block sounds like what was captured.
pub proof fn encoding_keeps_the_sound(pcm: Seq<u8>)
    requires
        pcm.len() == 1408,
    ensures
        sounds_like(encoded(pcm), pcm),
{
    let frame = encoded(pcm);
    assert forall|i: int| 0 <= i < 704 implies #[trigger] frame_sample(frame, i) == pcm[2 * i] as nat
        + 256 * pcm[2 * i + 1] as nat by {
        samples_read_back(pcm, i);
        packet_holds_frame_bits(pcm);
        lemma_frame_len(pcm);
        let from = 55 + 16 * i;
        assert(bits_of(frame, frame_bits(pcm).len()).subrange(from, from + 16) =~= Seq::new(
            16,
            |k: int| bit_of(frame, 55 + 16 * i + k),
        ));
    }
}

/// The counters of a session keep within the fields that they are sent in.
pub open spec fn counters_fit(session: SessionView) -> bool {
    &&& session.sequence < 0x1_0000
    &&& session.rtp < 0x1_0000_0000
    &&& session.ssrc < 0x1_0000_0000
    &&& session.audio_counter < two_64()
    &&& session.video_counter < two_64()
    &&& session.origin matches Some(origin) ==> origin.1 < 0x1_0000_0000
}

/// What the audio connection is given for a block of sound: one packet, whose header counts
/// packets and samples, and whose body is a frame with the captured sound, sealed under the
/// session's audio key and the number at the packet's end. Then the counters move on by one packet
/// and by its samples.
pub proof fn sound_is_sent_whole(session: SessionView, clock: Clock, time: nat, pcm: Seq<u8>)
    requires
        pcm.len() == 1408,
        counters_fit(session),
    ensures
        ({
            let (next, done) = session.turn(clock, IncomingView::Audio { time, pcm });
            let packet = done.audio[0];
            let end = packet.len() - 8;
            &&& done.audio.len() == 1
            &&& packet[0] == 0x80
            &&& packet[1] == 96
            &&& be_at(packet, 2, 4) == session.sequence
            &&& be_at(packet, 4, 8) == session.rtp
            &&& be_at(packet, 8, 12) == session.ssrc
            &&& le_at(packet, end, end + 8) == session.audio_counter
            &&& exists|frame: Seq<u8>|
                {
                    &&& packet.subrange(12, end) == #[trigger] sealed(
                        session.audio_key,
                        zeros(4) + packet.skip(end),
                        frame,
                        packet.subrange(4, 12),
                    )
                    &&& sounds_like(frame, pcm)
                }
            &&& done.failure is None <==> session.audio_counter < u64::MAX
            &&& done.failure is None ==> {
                &&& next.sequence == (session.sequence + 1) % 0x1_0000
                &&& next.rtp == (session.rtp + 352) % 0x1_0000_0000
                &&& next.audio_counter == session.audio_counter + 1
                &&& next.ssrc == session.ssrc
                &&& next.audio_key == session.audio_key
            }
            &&& next.history.last() == (session.sequence, packet)
        }),
{
    let (next, done) = session.turn(clock, IncomingView::Audio { time, pcm });
    let frame = encoded(pcm);
    let packet = audio_packet(
        session.audio_key,
        session.audio_counter,
        session.sequence,
        session.rtp,
        session.ssrc,
        frame,
    );
    encoding_keeps_the_sound(pcm);
    assert(done.audio =~= seq![packet]);
    lemma_ranges();
    lemma_be_bytes_len(session.sequence, 2);
    lemma_be_bytes_len(session.rtp, 4);
    lemma_be_bytes_len(session.ssrc, 4);
    lemma_le_bytes_len(session.audio_counter, 8);
    be_bytes_read_back(session.sequence, 2);
    be_bytes_read_back(session.rtp, 4);
    be_bytes_read_back(session.ssrc, 4);
    le_bytes_read_back(session.audio_counter, 8);
    let associated = be_bytes(session.rtp, 4) + be_bytes(session.ssrc, 4);
    let body = sealed(session.audio_key, nonce_of(session.audio_counter), frame, associated);
    let end = packet.len() - 8;
    assert(packet.subrange(2, 4) =~= be_bytes(session.sequence, 2));
    assert(packet.subrange(4, 8) =~= be_bytes(session.rtp, 4));
    assert(packet.subrange(8, 12) =~= be_bytes(session.ssrc, 4));
    assert(packet.subrange(4, 12) =~= associated);
    assert(packet.subrange(12, end) =~= body);
    assert(packet.skip(end) =~= le_bytes(session.audio_counter, 8));
    assert(packet.subrange(end, end + 8) =~= packet.skip(end));
    assert(packet.subrange(12, end) == sealed(
        session.audio_key,
        zeros(4) + packet.skip(end),
        frame,
        packet.subrange(4, 12),
    ));
}

/// A timing announcement: which sample is captured at which time of the receiver's timeline, and
/// which one plays at that time, behind it by the lead.
pub open spec fn announces(
    packet: Seq<u8>,
    first: bool,
    session: SessionView,
    clock: Clock,
    time: int,
    rtp: nat,
) -> bool {
    &&& packet.len() == 28
    &&& packet.take(4) == (if first {
        seq![0x90u8, 0xd7, 0, 4]
    } else {
        seq![0x80u8, 0xd7, 0, 4]
    })
    &&& be_at(packet, 16, 20) == rtp
    &&& be_at(packet, 8, 16) == clock.nanos + (time - clock.anchor)
    &&& be_at(packet, 20, 28) == clock.timeline
    &&& exists|samples: nat|
        {
            &&& #[trigger] (samples * 1000) == session.latency.lead_millis() * 44100
            &&& be_at(packet, 4, 8) == (rtp - samples) % 0x1_0000_0000
        }
}

proof fn lemma_announces(session: SessionView, clock: Clock, time: nat, rtp: nat, first: bool)
    requires
        rtp < 0x1_0000_0000,
        0 <= clock.nanos + (time - clock.anchor) < two_64(),
    ensures
        announces(session.sync(clock, time, rtp, first), first, session, clock, time as int, rtp),
{
    let packet = session.sync(clock, time, rtp, first);
    let samples = (session.latency.lead_millis() * 44100 / 1000) as nat;
    let behind = rtp_minus(rtp as int, samples as int);
    let moment = clock.nanos + (time - clock.anchor);
    vstd::arithmetic::div_mod::lemma_small_mod(moment as nat, two_64() as nat);
    lemma_ranges();
    lemma_be_bytes_len(behind, 4);
    lemma_be_bytes_len(moment as nat, 8);
    lemma_be_bytes_len(rtp, 4);
    lemma_be_bytes_len(clock.timeline as nat, 8);
    be_bytes_read_back(behind, 4);
    be_bytes_read_back(moment as nat, 8);
    be_bytes_read_back(rtp, 4);
    be_bytes_read_back(clock.timeline as nat, 8);
    assert(packet.subrange(4, 8) =~= be_bytes(behind, 4));
    assert(packet.subrange(8, 16) =~= be_bytes(moment as nat, 8));
    assert(packet.subrange(16, 20) =~= be_bytes(rtp, 4));
    assert(packet.subrange(20, 28) =~= be_bytes(clock.timeline as nat, 8));
    assert(packet.take(4) =~= (if first {
        seq![0x90u8, 0xd7, 0, 4]
    } else {
        seq![0x80u8, 0xd7, 0, 4]
    }));
    assert(samples * 1000 == session.latency.lead_millis() * 44100);
}

/// The first block of sound is announced by the moment of its capture and the number of its first
/// sample, and none after it is.
pub proof fn sound_is_announced_once(session: SessionView, clock: Clock, time: nat, pcm: Seq<u8>)
    requires
        counters_fit(session),
        0 <= clock.nanos + (time - clock.anchor) < two_64(),
    ensures
        ({
            let (next, done) = session.turn(clock, IncomingView::Audio { time, pcm });
            &&& session.origin is None ==> done.control.len() == 1 && announces(
                done.control[0],
                true,
                session,
                clock,
                time as int,
                session.rtp,
            ) && next.origin == Some((time, session.rtp))
            &&& session.origin is Some ==> done.control.len() == 0 && next.origin == session.origin
        }),
{
    lemma_announces(session, clock, time, session.rtp, true);
}

/// As long as sound has begun, every tick announces the sample that is being captured: as many
/// behind the first one as samples have passed.
pub proof fn ticks_announce_the_current_sample(
    session: SessionView,
    clock: Clock,
    now: nat,
    elapsed: nat,
    samples: nat,
)
    requires
        counters_fit(session),
        0 <= clock.nanos + (now - clock.anchor) < two_64(),
        session.turn(clock, IncomingView::Heartbeat { now, elapsed, samples }).1.failure is None,
    ensures
        ({
            let done = session.turn(clock, IncomingView::Heartbeat { now, elapsed, samples }).1;
            match session.origin {
                None => done.control.len() == 0,
                Some(origin) => done.control.len() == 1 && announces(
                    done.control[0],
                    false,
                    session,
                    clock,
                    now as int,
                    (origin.1 + samples) % 0x1_0000_0000,
                ),
            }
        }),
{
    if let Some(origin) = session.origin {
        lemma_announces(
            session,
            clock,
            now,
            rtp_plus(origin.1 as int, samples as int),
            false,
        );
    }
}

proof fn lemma_lead_back(rtp: int, samples: int, back: int, millis: int)
    requires
        0 <= rtp < 0x1_0000_0000,
        0 <= millis <= 1000,
        samples * 1000 == millis * 44100,
        back == (rtp - samples) % 0x1_0000_0000,
    ensures
        ((rtp - back) % 0x1_0000_0000) * 1_000_000_000 == millis * 1_000_000 * 44100,
{
    assert((rtp - (rtp - samples) % 0x1_0000_0000) % 0x1_0000_0000 == samples);
}

/// A picture and a block of sound captured at one moment play together: the picture's stamp is
/// ahead of the announced time by the lead, and the announced sample behind the captured one by as
/// much.
pub proof fn picture_and_sound_play_together(
    session: SessionView,
    other: SessionView,
    clock: Clock,
    time: nat,
    units: Seq<Seq<u8>>,
    pcm: Seq<u8>,
)
    requires
        session.latency == other.latency,
        shown(units).len() > 0,
        session.turn(clock, IncomingView::Video { time, units }).1.failure is None,
        can_be_stamped(session, clock, time as int),
        counters_fit(other),
        other.origin is None,
        0 <= clock.nanos + (time - clock.anchor),
    ensures
        ({
            let picture = session.turn(clock, IncomingView::Video { time, units }).1.video.last();
            let sync = other.turn(clock, IncomingView::Audio { time, pcm }).1.control[0];
            let lead = nanos_of(le_at(picture, 8, 16) as int) - be_at(sync, 8, 16);
            let behind = (be_at(sync, 16, 20) - be_at(sync, 4, 8)) % 0x1_0000_0000;
            &&& lead == session.latency.lead_millis() * 1_000_000
            &&& behind * 1_000_000_000 == lead * 44100
            &&& le_at(picture, 40, 48) == be_at(sync, 20, 28)
        }),
{
    pictures_are_sent_whole_and_in_time(session, clock, time, units);
    sound_is_announced_once(other, clock, time, pcm);
    let picture = session.turn(clock, IncomingView::Video { time, units }).1.video.last();
    let sync = other.turn(clock, IncomingView::Audio { time, pcm }).1.control[0];
    assert(picture.take(128).subrange(8, 16) =~= picture.subrange(8, 16));
    assert(picture.take(128).subrange(40, 48) =~= picture.subrange(40, 48));
    let samples = choose|samples: nat|
        {
            &&& #[trigger] (samples * 1000) == other.latency.lead_millis() * 44100
            &&& be_at(sync, 4, 8) == (other.rtp - samples) % 0x1_0000_0000
        };
    lemma_lead_back(
        other.rtp as int,
        samples as int,
        be_at(sync, 4, 8) as int,
        other.latency.lead_millis() as int,
    );
}

/// A frame without one of the two parameter sets.
pub open spec fn brings_no_sets(units: Seq<Seq<u8>>) -> bool {
    ||| forall|i: int| 0 <= i < units.len() ==> (#[trigger] units[i])[0] % 32 != 7
    ||| forall|i: int| 0 <= i < units.len() ==> (#[trigger] units[i])[0] % 32 != 8
}

/// A frame with both parameter sets, of lengths that a configuration can hold.
pub open spec fn brings_sets(units: Seq<Seq<u8>>) -> bool {
    exists|sps: Seq<u8>, pps: Seq<u8>|
        {
            &&& #[trigger] comes_first(units, 7, sps)
            &&& #[trigger] comes_first(units, 8, pps)
            &&& 4 <= sps.len() <= 65535
            &&& 1 <= pps.len() <= 65535
        }
}

/// A picture that a receiver can decode is sent unless it does not fit: with what belongs to its
/// seal, 16 MiB is the most. It can decode one that brings both parameter sets, or any picture once
/// it has them. A frame without a picture uses up no number.
pub proof fn pictures_that_fit_are_sent(
    session: SessionView,
    clock: Clock,
    time: nat,
    units: Seq<Seq<u8>>,
)
    requires
        session.video_counter < u64::MAX,
        (session.codec is Some && brings_no_sets(units)) || brings_sets(units),
        forall|i: int| 0 <= i < units.len() ==> (#[trigger] units[i]).len() < 0x1_0000_0000,
    ensures
        ({
            let (next, done) = session.turn(clock, IncomingView::Video { time, units });
            let ahead = if next.codec == session.codec {
                0nat
            } else {
                1
            };
            if shown(units).len() == 0 {
                &&& done.failure is None
                &&& done.video.len() == ahead
                &&& next.video_counter == session.video_counter
            } else if room(shown(units)) + 16 <= 16 * 1024 * 1024 {
                &&& done.failure is None
                &&& done.video.len() == ahead + 1
                &&& next.video_counter == session.video_counter + 1
            } else {
                &&& done.failure == Some(StreamEndView::Refused(Failure::FrameTooLarge))
                &&& done.video.len() == ahead
                &&& next.video_counter == session.video_counter
            }
        }),
{
    lemma_shown_iff_payload(units);
    picture_units_read_back(units);
    if brings_sets(units) {
        let (sps, pps) = choose|sps: Seq<u8>, pps: Seq<u8>|
            {
                &&& #[trigger] comes_first(units, 7, sps)
                &&& #[trigger] comes_first(units, 8, pps)
                &&& 4 <= sps.len() <= 65535
                &&& 1 <= pps.len() <= 65535
            };
        lemma_comes_first(units, 7, sps);
        lemma_comes_first(units, 8, pps);
    } else if forall|i: int| 0 <= i < units.len() ==> (#[trigger] units[i])[0] % 32 != 7 {
        lemma_absent(units, 7);
    } else {
        lemma_absent(units, 8);
    }
}

/// Until the receiver has both parameter sets, no picture is sent and the stream ends.
pub proof fn undecodable_pictures_are_refused(
    session: SessionView,
    clock: Clock,
    time: nat,
    units: Seq<Seq<u8>>,
)
    requires
        session.codec is None,
        brings_no_sets(units),
    ensures
        ({
            let (next, done) = session.turn(clock, IncomingView::Video { time, units });
            &&& next == session
            &&& done.video.len() == 0
            &&& done.failure == Some(StreamEndView::Refused(Failure::NoParameterSets))
        }),
{
    if forall|i: int| 0 <= i < units.len() ==> (#[trigger] units[i])[0] % 32 != 7 {
        lemma_absent(units, 7);
    } else {
        lemma_absent(units, 8);
    }
}

proof fn lemma_absent(units: Seq<Seq<u8>>, kind: u8)
    requires
        forall|i: int| 0 <= i < units.len() ==> (#[trigger] units[i])[0] % 32 != kind,
    ensures
        first_of_type(units, kind) is None,
    decreases units.len(),
{
    if units.len() > 0 {
        assert(units[0][0] % 32 != kind);
        lemma_low_bits(units[0][0]);
        let rest = units.drop_first();
        assert forall|i: int| 0 <= i < rest.len() implies (#[trigger] rest[i])[0] % 32 != kind by {
            assert(rest[i] == units[i + 1]);
        }
        lemma_absent(rest, kind);
    }
}

/// Parameter sets that no configuration can hold end the stream, with nothing sent.
pub proof fn broken_parameter_sets_are_refused(
    session: SessionView,
    clock: Clock,
    time: nat,
    units: Seq<Seq<u8>>,
    sps: Seq<u8>,
    pps: Seq<u8>,
)
    requires
        comes_first(units, 7, sps),
        comes_first(units, 8, pps),
        sps.len() < 4 || sps.len() > 65535 || pps.len() < 1 || pps.len() > 65535,
    ensures
        ({
            let (next, done) = session.turn(clock, IncomingView::Video { time, units });
            &&& next == session
            &&& done.video.len() == 0
            &&& done.failure == Some(StreamEndView::Refused(Failure::ParameterSets))
        }),
{
    lemma_comes_first(units, 7, sps);
    lemma_comes_first(units, 8, pps);
}

/// A block of sound of another length ends the stream, and a stream that has no more frames to come
/// ends as well; nothing is sent then.
pub proof fn broken_sound_and_ended_capture_end_the_stream(
    session: SessionView,
    clock: Clock,
    time: nat,
    pcm: Seq<u8>,
)
    requires
        pcm.len() != 1408,
    ensures
        ({
            let done = session.turn(clock, IncomingView::Audio { time, pcm }).1;
            &&& done.audio.len() == 0
            &&& done.failure == Some(StreamEndView::Refused(Failure::PcmLength))
        }),
        ({
            let (next, done) = session.turn(clock, IncomingView::Ended);
            &&& next == session
            &&& done.failure == Some(StreamEndView::Refused(Failure::CaptureStopped))
            &&& done.video.len() == 0 && done.audio.len() == 0 && done.control.len() == 0
        }),
{
}

} // verus!
