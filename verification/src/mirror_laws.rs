//! What holds of a stream over many turns.

use crate::bytes::be_value;
use crate::clock::{clock_runs_at_local_rate, two_64, Clock};
use crate::crypto::{nonce_of, nonces_are_distinct};
use crate::failure::Failure;
use crate::mirror::{
    answer, brings_bad_config, brought_config, is_request, lookup_packet, opening, picture_header,
    playback_stamp, remembered, resent, resent_packet, IncomingView, SessionView, StreamEndView,
    TurnView, HISTORY,
};
use crate::packets::{config_packet, picture_bytes, sealed_video, AUDIO_RATE};
use crate::settings::{audio_and_video_leads_agree, LatencyMode};
use vstd::prelude::*;

verus! {

/// The number of the packet sent `back` packets before the one numbered `sequence`.
pub open spec fn number_before(sequence: nat, back: int) -> nat {
    ((sequence - back) % 0x1_0000) as nat
}

/// The kept packets are the last ones sent, numbered without a gap up to the next number, and no
/// more than are to be kept.
pub open spec fn well_formed(session: SessionView) -> bool {
    &&& session.sequence < 0x1_0000
    &&& session.history.len() <= HISTORY
    &&& numbered(session.history, session.sequence)
    &&& session.reported <= session.frames
}

/// A new session is well formed.
pub proof fn sessions_open_well_formed(
    video_key: Seq<u8>,
    audio_key: Seq<u8>,
    rtp: nat,
    ssrc: nat,
    dimensions: Seq<u8>,
    latency: LatencyMode,
)
    ensures
        well_formed(opening(video_key, audio_key, rtp, ssrc, dimensions, latency)),
{
}

/// The history is numbered without a gap up to `sequence`.
pub open spec fn numbered(history: Seq<(nat, Seq<u8>)>, sequence: nat) -> bool {
    forall|i: int|
        0 <= i < history.len() ==> (#[trigger] history[i]).0 == number_before(
            sequence,
            history.len() - i,
        )
}

proof fn lemma_number_after(sequence: nat, back: int)
    ensures
        number_before((sequence + 1) % 0x1_0000, back + 1) == number_before(sequence, back),
{
}

proof fn lemma_remembered(history: Seq<(nat, Seq<u8>)>, sequence: nat, packet: Seq<u8>)
    requires
        sequence < 0x1_0000,
        history.len() <= HISTORY,
        numbered(history, sequence),
    ensures
        numbered(remembered(history, sequence, packet), (sequence + 1) % 0x1_0000),
        remembered(history, sequence, packet).len() <= HISTORY,
{
    let next = remembered(history, sequence, packet);
    assert forall|i: int| 0 <= i < next.len() implies (#[trigger] next[i]).0 == number_before(
        (sequence + 1) % 0x1_0000,
        next.len() - i,
    ) by {
        lemma_number_after(sequence, next.len() - i - 1);
        if i == next.len() - 1 {
            assert(next[i] == (sequence, packet));
        } else if history.len() == HISTORY {
            assert(next[i] == history[i + 1]);
        } else {
            assert(next[i] == history[i]);
        }
    }
}

/// Every turn that does not end the stream leaves the session well formed.
pub proof fn turns_keep_sessions_well_formed(
    session: SessionView,
    clock: Clock,
    event: IncomingView,
)
    requires
        well_formed(session),
        session.turn(clock, event).1.failure is None,
    ensures
        well_formed(session.turn(clock, event).0),
{
    let next = session.turn(clock, event).0;
    match event {
        IncomingView::Audio { time, pcm } => {
            let packet = session.audio(clock, time, pcm).2->0;
            lemma_remembered(session.history, session.sequence, packet);
            assert(next.history == remembered(session.history, session.sequence, packet));
        },
        _ => {
            assert(next.history == session.history);
        },
    }
}

proof fn lemma_lookup_at(history: Seq<(nat, Seq<u8>)>, i: int)
    requires
        0 <= i < history.len(),
        forall|j: int| 0 <= j < i ==> (#[trigger] history[j]).0 != history[i].0,
    ensures
        lookup_packet(history, history[i].0) == Some(history[i].1),
    decreases history.len(),
{
    if i > 0 {
        assert(history[0].0 != history[i].0);
        let rest = history.drop_first();
        assert(rest[i - 1] == history[i]);
        assert forall|j: int| 0 <= j < i - 1 implies (#[trigger] rest[j]).0 != rest[i - 1].0 by {
            assert(rest[j] == history[j + 1]);
        }
        lemma_lookup_at(rest, i - 1);
    }
}

proof fn lemma_lookup_none(history: Seq<(nat, Seq<u8>)>, sequence: nat)
    requires
        forall|j: int| 0 <= j < history.len() ==> (#[trigger] history[j]).0 != sequence,
    ensures
        lookup_packet(history, sequence) is None,
    decreases history.len(),
{
    if history.len() > 0 {
        assert(history[0].0 != sequence);
        let rest = history.drop_first();
        assert forall|j: int| 0 <= j < rest.len() implies (#[trigger] rest[j]).0 != sequence by {
            assert(rest[j] == history[j + 1]);
        }
        lemma_lookup_none(rest, sequence);
    }
}

/// Each of the last packets is found by its number, also where the numbers have wrapped in
/// between.
pub proof fn recent_packets_are_found(session: SessionView, back: int)
    requires
        well_formed(session),
        0 < back <= session.history.len(),
    ensures
        lookup_packet(session.history, number_before(session.sequence, back)) == Some(
            session.history[session.history.len() - back].1,
        ),
{
    let history = session.history;
    let i = history.len() - back;
    assert(history[i].0 == number_before(session.sequence, back));
    assert forall|j: int| 0 <= j < i implies (#[trigger] history[j]).0 != history[i].0 by {}
    lemma_lookup_at(history, i);
}

/// Packets from before the kept ones are not found.
pub proof fn older_packets_are_gone(session: SessionView, back: int)
    requires
        well_formed(session),
        session.history.len() < back <= 0x1_0000,
    ensures
        lookup_packet(session.history, number_before(session.sequence, back)) is None,
{
    lemma_lookup_none(session.history, number_before(session.sequence, back));
}

/// Keeping a packet when there is no more room drops exactly the oldest.
pub proof fn keeping_drops_the_oldest(history: Seq<(nat, Seq<u8>)>, sequence: nat, packet: Seq<u8>)
    requires
        history.len() == HISTORY,
    ensures
        remembered(history, sequence, packet) == history.skip(1).push((sequence, packet)),
        remembered(history, sequence, packet).len() == HISTORY,
{
    assert(history.drop_first() =~= history.skip(1));
}

/// A run of recent packets is sent again whole and in order.
pub proof fn recent_packets_are_resent(session: SessionView, tag: Seq<u8>, back: int, count: nat)
    requires
        well_formed(session),
        0 < back <= session.history.len(),
        count <= back,
    ensures
        resent(session.history, tag, number_before(session.sequence, back), count) == Seq::new(
            count,
            |i: int| resent_packet(tag, session.history[session.history.len() - back + i].1),
        ),
{
    lemma_resent(session, tag, number_before(session.sequence, back), back, count);
}

proof fn lemma_resent(session: SessionView, tag: Seq<u8>, first: nat, back: int, count: nat)
    requires
        well_formed(session),
        0 <= back <= session.history.len(),
        count <= back,
        first % 0x1_0000 == number_before(session.sequence, back),
    ensures
        resent(session.history, tag, first, count) == Seq::new(
            count,
            |i: int| resent_packet(tag, session.history[session.history.len() - back + i].1),
        ),
    decreases count,
{
    let whole = Seq::new(
        count,
        |i: int| resent_packet(tag, session.history[session.history.len() - back + i].1),
    );
    if count == 0 {
        assert(whole =~= Seq::empty());
    } else {
        recent_packets_are_found(session, back);
        assert((first + 1) % 0x1_0000 == number_before(session.sequence, back - 1));
        lemma_resent(session, tag, first + 1, back - 1, (count - 1) as nat);
        let rest = Seq::new(
            (count - 1) as nat,
            |i: int| resent_packet(tag, session.history[session.history.len() - (back - 1) + i].1),
        );
        assert(whole =~= seq![resent_packet(
            tag,
            session.history[session.history.len() - back].1,
        )] + rest);
    }
}

/// What is not a request for retransmission is not answered, whatever was sent before.
pub proof fn other_packets_get_no_answer(session: SessionView, clock: Clock, packet: Seq<u8>)
    requires
        !is_request(packet),
    ensures
        session.turn(clock, IncomingView::Request(packet)).1 == crate::mirror::quiet(),
{
    assert(answer(session.history, packet) =~= Seq::empty());
}

/// The session after one turn, and what the turn does.
#[verifier::opaque]
pub open spec fn played(session: SessionView, turn: (Clock, IncomingView)) -> (
    SessionView,
    TurnView,
) {
    session.turn(turn.0, turn.1)
}

/// The session after a number of turns.
pub open spec fn after(session: SessionView, turns: Seq<(Clock, IncomingView)>) -> SessionView
    decreases turns.len(),
{
    if turns.len() == 0 {
        session
    } else {
        played(after(session, turns.drop_last()), turns.last()).0
    }
}

/// The session in which turn `i` takes place.
pub open spec fn before_turn(session: SessionView, turns: Seq<(Clock, IncomingView)>, i: int) -> SessionView {
    after(session, turns.take(i))
}

/// None of the turns ends the stream.
pub open spec fn uninterrupted(session: SessionView, turns: Seq<(Clock, IncomingView)>) -> bool {
    forall|i: int|
        0 <= i < turns.len() ==> played(
            before_turn(session, turns, i),
            #[trigger] turns[i],
        ).1.failure is None
}

/// A turn that seals a picture.
pub open spec fn seals_picture(event: IncomingView) -> bool {
    event matches IncomingView::Video { units, .. } && picture_bytes(units).len() > 0
}

/// A picture that is sent is sealed under the number that the session stands at, and the session
/// moves on to the next number.
pub proof fn pictures_use_the_next_number(
    session: SessionView,
    clock: Clock,
    time: nat,
    units: Seq<Seq<u8>>,
)
    requires
        picture_bytes(units).len() > 0,
        session.video(clock, time as int, units).2 is None,
    ensures
        ({
            let outcome = session.video(clock, time as int, units);
            let stamp = playback_stamp(session.latency, clock, time as int);
            &&& outcome.1.last() == sealed_video(
                session.video_key,
                picture_header(units, stamp, clock.timeline as nat),
                session.video_counter,
                picture_bytes(units),
            )
            &&& outcome.0.video_counter == session.video_counter + 1
            &&& outcome.0.video_key == session.video_key
        }),
{
}

proof fn lemma_turn_counters(session: SessionView, turn: (Clock, IncomingView))
    requires
        played(session, turn).1.failure is None,
    ensures
        ({
            let next = played(session, turn).0;
            &&& next.video_counter == session.video_counter + if seals_picture(turn.1) {
                1int
            } else {
                0
            }
            &&& next.audio_counter == session.audio_counter + if turn.1 is Audio {
                1int
            } else {
                0
            }
            &&& seals_picture(turn.1) ==> session.video_counter < u64::MAX
            &&& turn.1 is Audio ==> session.audio_counter < u64::MAX
        }),
{
    reveal(played);
}

proof fn lemma_counters_grow(
    session: SessionView,
    turns: Seq<(Clock, IncomingView)>,
    i: int,
    j: int,
)
    requires
        0 <= i <= j <= turns.len(),
        uninterrupted(session, turns),
    ensures
        before_turn(session, turns, i).video_counter <= before_turn(
            session,
            turns,
            j,
        ).video_counter,
        before_turn(session, turns, i).audio_counter <= before_turn(
            session,
            turns,
            j,
        ).audio_counter,
    decreases j - i,
{
    if i < j {
        lemma_counters_grow(session, turns, i, j - 1);
        let last = turns[j - 1];
        lemma_turn_counters(before_turn(session, turns, j - 1), last);
        assert(turns.take(j).drop_last() =~= turns.take(j - 1));
        assert(turns.take(j).last() == last);
    }
}

/// Over a whole stream no two pictures are sealed under the same nonce.
pub proof fn picture_nonces_are_never_reused(
    session: SessionView,
    turns: Seq<(Clock, IncomingView)>,
    i: int,
    j: int,
)
    requires
        0 <= i < j < turns.len(),
        uninterrupted(session, turns),
        seals_picture(turns[i].1),
        seals_picture(turns[j].1),
    ensures
        nonce_of(before_turn(session, turns, i).video_counter) != nonce_of(
            before_turn(session, turns, j).video_counter,
        ),
{
    lemma_turn_counters(before_turn(session, turns, i), turns[i]);
    lemma_turn_counters(before_turn(session, turns, j), turns[j]);
    assert(turns.take(i + 1).drop_last() =~= turns.take(i));
    assert(turns.take(i + 1).last() == turns[i]);
    lemma_counters_grow(session, turns, i + 1, j);
    nonces_are_distinct(
        before_turn(session, turns, i).video_counter as u64,
        before_turn(session, turns, j).video_counter as u64,
    );
}

/// Over a whole stream no two audio packets are sealed under the same nonce.
pub proof fn audio_nonces_are_never_reused(
    session: SessionView,
    turns: Seq<(Clock, IncomingView)>,
    i: int,
    j: int,
)
    requires
        0 <= i < j < turns.len(),
        uninterrupted(session, turns),
        turns[i].1 is Audio,
        turns[j].1 is Audio,
    ensures
        nonce_of(before_turn(session, turns, i).audio_counter) != nonce_of(
            before_turn(session, turns, j).audio_counter,
        ),
{
    lemma_turn_counters(before_turn(session, turns, i), turns[i]);
    lemma_turn_counters(before_turn(session, turns, j), turns[j]);
    assert(turns.take(i + 1).drop_last() =~= turns.take(i));
    assert(turns.take(i + 1).last() == turns[i]);
    lemma_counters_grow(session, turns, i + 1, j);
    nonces_are_distinct(
        before_turn(session, turns, i).audio_counter as u64,
        before_turn(session, turns, j).audio_counter as u64,
    );
}

/// A changed decoder configuration goes ahead of the picture that brings it, and is the current
/// one from then on.
pub proof fn changed_configuration_goes_first(
    session: SessionView,
    clock: Clock,
    time: nat,
    units: Seq<Seq<u8>>,
)
    requires
        !brings_bad_config(units),
        brought_config(units) is Some,
        session.codec != brought_config(units),
    ensures
        ({
            let outcome = session.video(clock, time as int, units);
            &&& outcome.1.len() > 0
            &&& outcome.1[0] == config_packet(
                brought_config(units)->0,
                playback_stamp(session.latency, clock, time as int),
                session.dimensions,
            )
            &&& outcome.0.codec == brought_config(units)
        }),
{
}

/// A configuration that the receiver already has is not sent again.
pub proof fn known_configuration_is_not_repeated(
    session: SessionView,
    clock: Clock,
    time: nat,
    units: Seq<Seq<u8>>,
)
    requires
        !brings_bad_config(units),
        brought_config(units) is None || session.codec == brought_config(units),
    ensures
        ({
            let outcome = session.video(clock, time as int, units);
            &&& outcome.1.len() <= 1
            &&& outcome.1.len() == 1 ==> outcome.0.video_counter == session.video_counter + 1
            &&& outcome.0.codec == session.codec
        }),
{
}

/// No picture goes out before the receiver has a decoder configuration.
pub proof fn no_picture_without_configuration(
    session: SessionView,
    clock: Clock,
    time: nat,
    units: Seq<Seq<u8>>,
)
    requires
        session.codec is None,
        brought_config(units) is None,
    ensures
        session.video(clock, time as int, units).1.len() == 0,
        session.video(clock, time as int, units).2 is Some,
{
}

/// From a new session on, every uninterrupted run of turns leaves the session well formed.
pub proof fn runs_keep_sessions_well_formed(
    session: SessionView,
    turns: Seq<(Clock, IncomingView)>,
)
    requires
        well_formed(session),
        uninterrupted(session, turns),
    ensures
        well_formed(after(session, turns)),
    decreases turns.len(),
{
    if turns.len() > 0 {
        let earlier = turns.drop_last();
        lemma_uninterrupted_prefix(session, turns);
        runs_keep_sessions_well_formed(session, earlier);
        assert(earlier =~= turns.take(turns.len() - 1));
        reveal(played);
        turns_keep_sessions_well_formed(after(session, earlier), turns.last().0, turns.last().1);
    }
}

proof fn lemma_uninterrupted_prefix(session: SessionView, turns: Seq<(Clock, IncomingView)>)
    requires
        turns.len() > 0,
        uninterrupted(session, turns),
    ensures
        uninterrupted(session, turns.drop_last()),
        played(before_turn(session, turns, turns.len() - 1), turns.last()).1.failure is None,
{
    let earlier = turns.drop_last();
    assert forall|i: int| 0 <= i < earlier.len() implies played(
        before_turn(session, earlier, i),
        #[trigger] earlier[i],
    ).1.failure is None by {
        assert(earlier.take(i) =~= turns.take(i));
        assert(earlier[i] == turns[i]);
    }
    assert(turns.last() == turns[turns.len() - 1]);
}

/// The audio packets that a number of turns send, in order.
pub open spec fn audio_sent(session: SessionView, turns: Seq<(Clock, IncomingView)>) -> Seq<Seq<u8>>
    decreases turns.len(),
{
    if turns.len() == 0 {
        Seq::empty()
    } else {
        audio_sent(session, turns.drop_last()) + played(
            after(session, turns.drop_last()),
            turns.last(),
        ).1.audio
    }
}

/// The kept packets without their numbers.
pub open spec fn kept_packets(history: Seq<(nat, Seq<u8>)>) -> Seq<Seq<u8>> {
    history.map_values(|entry: (nat, Seq<u8>)| entry.1)
}

/// The last `count` of several packets, or all where there are fewer.
pub open spec fn last_of(packets: Seq<Seq<u8>>, count: nat) -> Seq<Seq<u8>> {
    if packets.len() <= count {
        packets
    } else {
        packets.skip(packets.len() - count)
    }
}

/// What is kept for retransmission is exactly the last packets sent, byte for byte.
pub proof fn kept_packets_are_the_last_sent(
    session: SessionView,
    turns: Seq<(Clock, IncomingView)>,
)
    requires
        session.history.len() <= HISTORY,
        uninterrupted(session, turns),
    ensures
        kept_packets(after(session, turns).history) == last_of(
            kept_packets(session.history) + audio_sent(session, turns),
            HISTORY as nat,
        ),
    decreases turns.len(),
{
    let start = kept_packets(session.history);
    if turns.len() == 0 {
        assert(start + audio_sent(session, turns) =~= start);
    } else {
        let earlier = turns.drop_last();
        lemma_uninterrupted_prefix(session, turns);
        kept_packets_are_the_last_sent(session, earlier);
        assert(earlier =~= turns.take(turns.len() - 1));
        let before = after(session, earlier);
        let sent = start + audio_sent(session, earlier);
        let outcome = played(before, turns.last());
        lemma_turn_keeps_audio(before, turns.last());
        lemma_keep_turn(
            before.history,
            outcome.0.history,
            before.sequence,
            sent,
            outcome.1.audio,
        );
        assert(start + audio_sent(session, turns) =~= sent + outcome.1.audio);
    }
}

proof fn lemma_turn_keeps_audio(session: SessionView, turn: (Clock, IncomingView))
    requires
        played(session, turn).1.failure is None,
    ensures
        ({
            let (next, done) = played(session, turn);
            ||| done.audio.len() == 0 && next.history == session.history
            ||| done.audio.len() == 1 && next.history == remembered(
                session.history,
                session.sequence,
                done.audio[0],
            )
        }),
{
    reveal(played);
}

proof fn lemma_keep_one_more(
    history: Seq<(nat, Seq<u8>)>,
    sent: Seq<Seq<u8>>,
    sequence: nat,
    packet: Seq<u8>,
)
    requires
        kept_packets(history) == last_of(sent, HISTORY as nat),
    ensures
        kept_packets(remembered(history, sequence, packet)) == last_of(
            sent.push(packet),
            HISTORY as nat,
        ),
{
    let next = remembered(history, sequence, packet);
    let last = last_of(sent.push(packet), HISTORY as nat);
    assert(history.len() == kept_packets(history).len());
    assert(next.len() == last.len());
    assert forall|i: int| 0 <= i < next.len() implies kept_packets(next)[i] == last[i] by {
        if i == next.len() - 1 {
            assert(next[i].1 == packet);
        } else if history.len() == HISTORY {
            assert(next[i] == history[i + 1]);
            assert(kept_packets(history)[i + 1] == history[i + 1].1);
        } else {
            assert(next[i] == history[i]);
            assert(kept_packets(history)[i] == history[i].1);
        }
    }
    assert(kept_packets(next) =~= last);
}

/// What one more turn does to what is kept, whatever the turn was.
proof fn lemma_keep_turn(
    history: Seq<(nat, Seq<u8>)>,
    next: Seq<(nat, Seq<u8>)>,
    sequence: nat,
    sent: Seq<Seq<u8>>,
    audio: Seq<Seq<u8>>,
)
    requires
        kept_packets(history) == last_of(sent, HISTORY as nat),
        (audio.len() == 0 && next == history) || (audio.len() == 1 && next == remembered(
            history,
            sequence,
            audio[0],
        )),
    ensures
        kept_packets(next) == last_of(sent + audio, HISTORY as nat),
{
    if audio.len() == 0 {
        assert(sent + audio =~= sent);
    } else {
        lemma_keep_one_more(history, sent, sequence, audio[0]);
        assert(sent + audio =~= sent.push(audio[0]));
    }
}

/// Sound and picture captured at one moment are meant to play at one moment: the picture's stamp
/// is ahead of the moment of capture by as much time as the announced sample is behind the
/// captured one.
pub proof fn sound_and_picture_play_together(latency: LatencyMode, clock: Clock, time: u64)
    requires
        clock.nanos + time >= clock.anchor,
        clock.nanos + time + latency.lead_millis() * 1_000_000 - clock.anchor < two_64(),
    ensures
        ({
            let lead_nanos = clock.reading(time + latency.lead_millis() * 1_000_000)
                - clock.reading(time as int);
            let lead_samples = latency.lead_millis() * AUDIO_RATE / 1000;
            &&& lead_nanos == latency.lead_millis() * 1_000_000
            &&& lead_samples * 1_000_000_000 == lead_nanos * AUDIO_RATE
        }),
{
    clock_runs_at_local_rate(
        clock,
        time as int,
        time + latency.lead_millis() * 1_000_000,
    );
    audio_and_video_leads_agree(latency);
}

/// When capture or the control connection fails, the stream ends with that reason: nothing more is
/// sent, and the session stays as it was.
pub proof fn outside_failures_end_the_stream(session: SessionView, clock: Clock, reason: Seq<char>)
    ensures
        ({
            let (next, done) = session.turn(clock, IncomingView::Failed(reason));
            &&& next == session
            &&& done.failure == Some(StreamEndView::Failed(reason))
            &&& done.video.len() == 0
            &&& done.audio.len() == 0
            &&& done.control.len() == 0
            &&& done.progress is None
        }),
{
}

proof fn lemma_resent_all(session: SessionView, tag: Seq<u8>, first: nat, back: int, count: nat)
    requires
        well_formed(session),
        0 <= back <= session.history.len(),
        first % 0x1_0000 == number_before(session.sequence, back),
    ensures
        ({
            let sent = if count < back {
                count as int
            } else {
                back
            };
            resent(session.history, tag, first, count) == Seq::new(
                sent as nat,
                |i: int| resent_packet(tag, session.history[session.history.len() - back + i].1),
            )
        }),
    decreases count,
{
    let sent = if count < back {
        count as int
    } else {
        back
    };
    let whole = Seq::new(
        sent as nat,
        |i: int| resent_packet(tag, session.history[session.history.len() - back + i].1),
    );
    if count == 0 {
        assert(whole =~= Seq::empty());
    } else if back == 0 {
        lemma_lookup_none(session.history, session.sequence);
        assert(whole =~= Seq::empty());
    } else {
        recent_packets_are_found(session, back);
        assert((first + 1) % 0x1_0000 == number_before(session.sequence, back - 1));
        lemma_resent_all(session, tag, first + 1, back - 1, (count - 1) as nat);
        let rest = Seq::new(
            (sent - 1) as nat,
            |i: int| resent_packet(tag, session.history[session.history.len() - (back - 1) + i].1),
        );
        assert(whole =~= seq![resent_packet(
            tag,
            session.history[session.history.len() - back].1,
        )] + rest);
    }
}

/// A receiver that asks for a run of recent packets, by the number of the first and how many it
/// misses, gets them again: each whole, behind a mark and the tag of its request, in order and as
/// far as they were sent. Nothing else happens.
pub proof fn lost_packets_are_sent_again(
    session: SessionView,
    clock: Clock,
    request: Seq<u8>,
    back: int,
)
    requires
        well_formed(session),
        0 < back <= session.history.len(),
        request.len() == 8,
        request[0] == 0x80,
        request[1] == 0xd5,
        be_value(request.subrange(4, 6)) == number_before(session.sequence, back),
    ensures
        ({
            let (next, done) = session.turn(clock, IncomingView::Request(request));
            let asked = be_value(request.subrange(6, 8));
            let kept = session.history.len();
            &&& next == session
            &&& done.failure is None
            &&& done.audio.len() == 0
            &&& done.video.len() == 0
            &&& done.control.len() == if asked < back {
                asked as int
            } else {
                back
            }
            &&& forall|i: int|
                0 <= i < done.control.len() ==> #[trigger] done.control[i] == seq![
                    0x80u8,
                    0xd6u8,
                    request[2],
                    request[3],
                ] + session.history[kept - back + i].1
        }),
{
    let asked = be_value(request.subrange(6, 8));
    let tag = request.subrange(2, 4);
    let first = be_value(request.subrange(4, 6));
    let count = if asked > 512 {
        512
    } else {
        asked
    };
    lemma_resent_all(session, tag, first, back, count);
    let done = session.turn(clock, IncomingView::Request(request)).1;
    assert forall|i: int| 0 <= i < done.control.len() implies #[trigger] done.control[i] == seq![
        0x80u8,
        0xd6u8,
        request[2],
        request[3],
    ] + session.history[session.history.len() - back + i].1 by {
        let packet = session.history[session.history.len() - back + i].1;
        assert(seq![0x80u8, 0xd6u8] + tag + packet =~= seq![
            0x80u8,
            0xd6u8,
            request[2],
            request[3],
        ] + packet);
    }
}

/// A stream ends on a tick exactly where fifteen seconds have passed and either no picture was sent
/// or no sound was captured.
pub proof fn silent_streams_end_after_fifteen_seconds(
    session: SessionView,
    clock: Clock,
    now: nat,
    elapsed: nat,
    samples: nat,
)
    ensures
        ({
            let (next, done) = session.turn(
                clock,
                IncomingView::Heartbeat { now, elapsed, samples },
            );
            done.failure == (if elapsed < 15 * 1_000_000_000 {
                None
            } else if session.frames == 0 {
                Some(StreamEndView::Refused(Failure::NoVideo))
            } else if session.origin is None {
                Some(StreamEndView::Refused(Failure::NoAudio))
            } else {
                None
            })
        }),
{
}

/// Every tick of a running stream keeps the video connection alive, once a picture was sent, by an
/// empty packet of its own kind.
pub proof fn ticks_keep_the_connection_alive(
    session: SessionView,
    clock: Clock,
    now: nat,
    elapsed: nat,
    samples: nat,
)
    requires
        session.turn(clock, IncomingView::Heartbeat { now, elapsed, samples }).1.failure is None,
    ensures
        ({
            let done = session.turn(clock, IncomingView::Heartbeat { now, elapsed, samples }).1;
            let packet = done.video[0];
            &&& done.video.len() == if session.frames > 0 {
                1int
            } else {
                0
            }
            &&& session.frames > 0 ==> packet.len() == 128 && packet[4] == 2 && packet[6] == 0x1e
                && forall|i: int| 0 <= i < 128 && i != 4 && i != 6 ==> #[trigger] packet[i] == 0
            &&& done.audio.len() == 0
        }),
{
}

/// The session after a number of pictures, each sent so long after its capture and in so much time.
pub open spec fn after_sending(session: SessionView, sent: Seq<(nat, nat)>) -> SessionView
    decreases sent.len(),
{
    if sent.len() == 0 {
        session
    } else {
        after_sending(session, sent.drop_last()).sent(sent.last().0, sent.last().1)
    }
}

/// How long pictures waited before they were sent.
pub open spec fn waits_of(sent: Seq<(nat, nat)>) -> Seq<nat> {
    sent.map_values(|times: (nat, nat)| times.0)
}

/// How long it took to send pictures.
pub open spec fn sends_of(sent: Seq<(nat, nat)>) -> Seq<nat> {
    sent.map_values(|times: (nat, nat)| times.1)
}

/// The longest of several times: none is longer, and it is one of them.
pub open spec fn is_longest(longest: nat, times: Seq<nat>) -> bool {
    &&& forall|i: int| 0 <= i < times.len() ==> #[trigger] times[i] <= longest
    &&& times.len() == 0 && longest == 0 || times.contains(longest)
}

proof fn lemma_after_sending(session: SessionView, sent: Seq<(nat, nat)>)
    requires
        session.max_queue == 0,
        session.max_send == 0,
    ensures
        ({
            let next = after_sending(session, sent);
            &&& next == (SessionView {
                frames: session.frames + sent.len(),
                max_queue: next.max_queue,
                max_send: next.max_send,
                ..session
            })
            &&& is_longest(next.max_queue, waits_of(sent))
            &&& is_longest(next.max_send, sends_of(sent))
        }),
    decreases sent.len(),
{
    let waits = waits_of(sent);
    let sends = sends_of(sent);
    if sent.len() > 0 {
        let earlier = sent.drop_last();
        lemma_after_sending(session, earlier);
        let before = after_sending(session, earlier);
        let next = after_sending(session, sent);
        let old_waits = waits_of(earlier);
        let old_sends = sends_of(earlier);
        lemma_longest_of_more(old_waits, before.max_queue, sent.last().0);
        lemma_longest_of_more(old_sends, before.max_send, sent.last().1);
        assert(waits =~= old_waits.push(sent.last().0));
        assert(sends =~= old_sends.push(sent.last().1));
    }
}

proof fn lemma_longest_of_more(times: Seq<nat>, longest: nat, time: nat)
    requires
        is_longest(longest, times),
    ensures
        is_longest(
            if time > longest {
                time
            } else {
                longest
            },
            times.push(time),
        ),
{
    let more = times.push(time);
    assert(more[times.len() as int] == time);
    if times.len() > 0 && times.contains(longest) {
        let i = choose|i: int| 0 <= i < times.len() && times[i] == longest;
        assert(more[i] == longest);
    }
}

/// The report of a tick counts the pictures sent since the tick before, and tells the longest that
/// one of them waited and took, in whole milliseconds.
pub proof fn reports_cover_what_was_sent_since(
    session: SessionView,
    sent: Seq<(nat, nat)>,
    clock: Clock,
    now: nat,
    elapsed: nat,
    samples: nat,
)
    requires
        session.reported == session.frames,
        session.max_queue == 0,
        session.max_send == 0,
        sent.len() < two_64(),
        forall|i: int| 0 <= i < sent.len() ==> (#[trigger] sent[i]).0 < two_64(),
        forall|i: int| 0 <= i < sent.len() ==> (#[trigger] sent[i]).1 < two_64(),
        after_sending(session, sent).turn(
            clock,
            IncomingView::Heartbeat { now, elapsed, samples },
        ).1.failure is None,
    ensures
        ({
            let (next, done) = after_sending(session, sent).turn(
                clock,
                IncomingView::Heartbeat { now, elapsed, samples },
            );
            &&& done.report matches Some(report) && {
                &&& report.frames == sent.len()
                &&& report.lead_millis == session.latency.lead_millis()
                &&& exists|longest: nat|
                    {
                        &&& #[trigger] is_longest(
                            longest,
                            waits_of(sent),
                        )
                        &&& report.max_queue_millis == longest / 1_000_000
                    }
                &&& exists|longest: nat|
                    {
                        &&& #[trigger] is_longest(
                            longest,
                            sends_of(sent),
                        )
                        &&& report.max_send_millis == longest / 1_000_000
                    }
            }
            &&& next.reported == next.frames
            &&& next.max_queue == 0
            &&& next.max_send == 0
        }),
{
    lemma_after_sending(session, sent);
    let before = after_sending(session, sent);
    let waits = waits_of(sent);
    let sends = sends_of(sent);
    assert(before.max_queue < two_64()) by {
        if waits.contains(before.max_queue) {
            let i = choose|i: int| 0 <= i < waits.len() && waits[i] == before.max_queue;
            assert(sent[i].0 < two_64());
        }
    }
    assert(before.max_send < two_64()) by {
        if sends.contains(before.max_send) {
            let i = choose|i: int| 0 <= i < sends.len() && sends[i] == before.max_send;
            assert(sent[i].1 < two_64());
        }
    }
    assert(is_longest(before.max_queue, waits));
    assert(is_longest(before.max_send, sends));
}

/// Every picture that is sent is counted, and progress is told of the first and of every thirtieth,
/// by the count.
pub proof fn sent_pictures_are_counted(session: SessionView, clock: Clock, waited: nat, spent: nat)
    ensures
        ({
            let (next, done) = session.turn(clock, IncomingView::VideoSent { waited, spent });
            let count = session.frames + 1;
            &&& next.frames == count
            &&& done.progress is Some <==> count == 1 || exists|k: nat| count == #[trigger] (30 * k)
            &&& done.progress matches Some(told) ==> told == count
            &&& done.failure is None
        }),
{
    let count = session.frames + 1;
    if count % 30 == 0 {
        assert(count == 30 * (count / 30));
    }
}

/// A packet that is no longer kept is not sent again, nor is anything in its place; and only eight
/// bytes that begin as a request does are answered at all.
pub proof fn other_requests_get_no_answer(
    session: SessionView,
    clock: Clock,
    request: Seq<u8>,
    back: int,
)
    requires
        well_formed(session),
        request.len() != 8 || request[0] != 0x80 || request[1] != 0xd5 || (session.history.len()
            < back <= 0x1_0000 && be_value(request.subrange(4, 6)) == number_before(
            session.sequence,
            back,
        )),
    ensures
        session.turn(clock, IncomingView::Request(request)).0 == session,
        session.turn(clock, IncomingView::Request(request)).1.control.len() == 0,
        session.turn(clock, IncomingView::Request(request)).1.failure is None,
{
    if is_request(request) {
        older_packets_are_gone(session, back);
        reveal_with_fuel(resent, 2);
    }
}

} // verus!
