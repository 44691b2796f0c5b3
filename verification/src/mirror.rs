//! A running screen stream: what is sent for each captured frame, tick and request.

use crate::alac::{alac_verbatim, encoded, PCM_BYTES};
use crate::bytes::{be_value, push_all, same_bytes};
use crate::clock::{fixed_point, fixed_time, two_64, Clock};
use crate::failure::Failure;
use crate::media::{all_nonempty, find_type, first_of_type, has_type, owned};
use crate::packets::{
    audio_packet, avcc_config, build_audio_packet, build_config_packet, config_packet,
    configuration, header_bytes, keepalive_bytes, keepalive_packet, picture_bytes,
    picture_payload, rtp_plus, seal_video, sealed_video, sync_bytes, sync_packet,
    valid_parameter_sets, video_header, AUDIO_RATE, MAX_PAYLOAD,
};
use crate::reception::{
    encoding_keeps_the_sound, lemma_shown_iff_payload, lemma_units_fit, opens_to_picture,
    opens_to_sound, picture_units_read_back, shown,
};
use crate::settings::LatencyMode;
use std::collections::VecDeque;
use vstd::prelude::*;

verus! {

/// How many audio packets are kept for retransmission.
pub const HISTORY: usize = 512;

/// How long a stream may run without a first frame, in nanoseconds.
pub const PATIENCE: u64 = 15_000_000_000;

/// Samples in an audio packet.
pub const PACKET_SAMPLES: u32 = 352;

/// What a session remembers between frames.
#[verifier::ext_equal]
pub struct SessionView {
    pub video_key: Seq<u8>,
    pub video_counter: nat,
    pub audio_key: Seq<u8>,
    pub audio_counter: nat,
    pub sequence: nat,
    pub rtp: nat,
    pub origin: Option<(nat, nat)>,
    pub ssrc: nat,
    pub history: Seq<(nat, Seq<u8>)>,
    pub codec: Option<Seq<u8>>,
    pub dimensions: Seq<u8>,
    pub latency: LatencyMode,
    pub frames: nat,
    pub reported: nat,
    pub max_queue: nat,
    pub max_send: nat,
}

/// A stream to a receiver, after negotiation.
pub struct MirrorSession {
    video_key: [u8; 32],
    video_nonce: u64,
    audio_key: [u8; 32],
    audio_nonce: u64,
    audio_seq: u16,
    audio_rtp: u32,
    audio_origin: Option<(u64, u32)>,
    ssrc: u32,
    history: VecDeque<(u16, Vec<u8>)>,
    codec: Option<Vec<u8>>,
    dimensions: [u8; 8],
    latency: LatencyMode,
    frames: u64,
    reported: u64,
    max_queue: u64,
    max_send: u64,
}

/// Kept packets as numbers and bytes.
pub open spec fn kept(history: Seq<(u16, Vec<u8>)>) -> Seq<(nat, Seq<u8>)> {
    history.map_values(|entry: (u16, Vec<u8>)| (entry.0 as nat, entry.1@))
}

impl View for MirrorSession {
    type V = SessionView;

    closed spec fn view(&self) -> SessionView {
        SessionView {
            video_key: self.video_key@,
            video_counter: self.video_nonce as nat,
            audio_key: self.audio_key@,
            audio_counter: self.audio_nonce as nat,
            sequence: self.audio_seq as nat,
            rtp: self.audio_rtp as nat,
            origin: match self.audio_origin {
                None => None,
                Some(origin) => Some((origin.0 as nat, origin.1 as nat)),
            },
            ssrc: self.ssrc as nat,
            history: kept(self.history@),
            codec: match self.codec {
                None => None,
                Some(config) => Some(config@),
            },
            dimensions: self.dimensions@,
            latency: self.latency,
            frames: self.frames as nat,
            reported: self.reported as nat,
            max_queue: self.max_queue as nat,
            max_send: self.max_send as nat,
        }
    }
}

/// The packets for one picture, and whether they end the stream.
pub struct VideoOutput {
    pub packets: Vec<Vec<u8>>,
    pub failure: Option<Failure>,
}

/// The packets for one block of audio, and whether they end the stream.
pub struct AudioOutput {
    pub sync: Option<Vec<u8>>,
    pub packet: Option<Vec<u8>>,
    pub failure: Option<Failure>,
}

/// What the sender did since the last report.
#[derive(Clone, Copy, Debug, PartialEq, Eq, Structural)]
pub struct Report {
    pub frames: u64,
    pub max_queue_millis: u64,
    pub max_send_millis: u64,
    pub lead_millis: u64,
}

/// What is due on a regular tick, and whether the stream ends.
pub struct TickOutput {
    pub keepalive: Option<Vec<u8>>,
    pub report: Option<Report>,
    pub sync: Option<Vec<u8>>,
    pub failure: Option<Failure>,
}

pub open spec fn bytes_in(packet: Option<Vec<u8>>) -> Option<Seq<u8>> {
    match packet {
        None => None,
        Some(packet) => Some(packet@),
    }
}

/// The time of playback for a frame captured at `time`, as it stands in a video header.
pub open spec fn playback_stamp(latency: LatencyMode, clock: Clock, time: int) -> nat {
    fixed_point(clock.reading(time + latency.lead_millis() * 1_000_000)) as nat
}

/// The header of a picture packet.
pub open spec fn picture_header(units: Seq<Seq<u8>>, stamp: nat, timeline: nat) -> Seq<u8> {
    let header = header_bytes(picture_bytes(units).len() + 16, 0, stamp, timeline);
    if has_type(units, 5) {
        header.update(5, 0x10)
    } else {
        header
    }
}

/// The decoder configuration that a picture brings along.
pub open spec fn brought_config(units: Seq<Seq<u8>>) -> Option<Seq<u8>> {
    match (first_of_type(units, 7), first_of_type(units, 8)) {
        (Some(sps), Some(pps)) => Some(configuration(sps, pps)),
        _ => None,
    }
}

/// A picture brings along parameter sets that no configuration can hold.
pub open spec fn brings_bad_config(units: Seq<Seq<u8>>) -> bool {
    match (first_of_type(units, 7), first_of_type(units, 8)) {
        (Some(sps), Some(pps)) => !valid_parameter_sets(sps, pps),
        _ => false,
    }
}

/// A session that has sent nothing yet.
pub open spec fn opening(
    video_key: Seq<u8>,
    audio_key: Seq<u8>,
    rtp: nat,
    ssrc: nat,
    dimensions: Seq<u8>,
    latency: LatencyMode,
) -> SessionView {
    SessionView {
        video_key,
        video_counter: 0,
        audio_key,
        audio_counter: 0,
        sequence: 0,
        rtp,
        origin: None,
        ssrc,
        history: Seq::empty(),
        codec: None,
        dimensions,
        latency,
        frames: 0,
        reported: 0,
        max_queue: 0,
        max_send: 0,
    }
}

impl SessionView {
    /// What becomes of a picture: the session after it, the packets to send in order, and the
    /// failure that ends the stream, if any.
    pub open spec fn video(self, clock: Clock, time: int, units: Seq<Seq<u8>>) -> (
        SessionView,
        Seq<Seq<u8>>,
        Option<Failure>,
    ) {
        let stamp = playback_stamp(self.latency, clock, time);
        let config = brought_config(units);
        let fresh = config is Some && self.codec != config;
        let next = if fresh {
            SessionView { codec: config, ..self }
        } else {
            self
        };
        let ahead = if fresh {
            seq![config_packet(config->0, stamp, self.dimensions)]
        } else {
            Seq::empty()
        };
        let data = picture_bytes(units);
        if brings_bad_config(units) {
            (self, Seq::empty(), Some(Failure::ParameterSets))
        } else if next.codec is None {
            (next, ahead, Some(Failure::NoParameterSets))
        } else if data.len() == 0 {
            (next, ahead, None)
        } else if data.len() + 16 > MAX_PAYLOAD {
            (next, ahead, Some(Failure::FrameTooLarge))
        } else if self.video_counter >= u64::MAX {
            (next, ahead, Some(Failure::VideoNonces))
        } else {
            (
                SessionView { video_counter: self.video_counter + 1, ..next },
                ahead.push(
                    sealed_video(
                        self.video_key,
                        picture_header(units, stamp, clock.timeline as nat),
                        self.video_counter,
                        data,
                    ),
                ),
                None,
            )
        }
    }

    /// What becomes of a block of audio: the session after it, the timing announcement if it is
    /// the first, the packet, and the failure that ends the stream, if any.
    pub open spec fn audio(self, clock: Clock, time: nat, pcm: Seq<u8>) -> (
        SessionView,
        Option<Seq<u8>>,
        Option<Seq<u8>>,
        Option<Failure>,
    ) {
        let sync = if self.origin is None {
            Some(self.sync(clock, time, self.rtp, true))
        } else {
            None
        };
        let begun = if self.origin is None {
            SessionView { origin: Some((time, self.rtp)), ..self }
        } else {
            self
        };
        if pcm.len() != PCM_BYTES {
            (begun, sync, None, Some(Failure::PcmLength))
        } else {
            let packet = audio_packet(
                self.audio_key,
                self.audio_counter,
                self.sequence,
                self.rtp,
                self.ssrc,
                encoded(pcm),
            );
            let recorded = SessionView {
                history: remembered(self.history, self.sequence, packet),
                ..begun
            };
            if self.audio_counter >= u64::MAX {
                (recorded, sync, Some(packet), Some(Failure::AudioNonces))
            } else {
                (
                    SessionView {
                        audio_counter: self.audio_counter + 1,
                        sequence: (self.sequence + 1) % 0x1_0000,
                        rtp: rtp_plus(self.rtp as int, PACKET_SAMPLES as int),
                        ..recorded
                    },
                    sync,
                    Some(packet),
                    None,
                )
            }
        }
    }

    /// The announcement that sample `rtp` was captured at `time`.
    pub open spec fn sync(self, clock: Clock, time: nat, rtp: nat, first: bool) -> Seq<u8> {
        sync_bytes(
            first,
            rtp,
            (self.latency.lead_millis() * AUDIO_RATE / 1000) as nat,
            clock.reading(time as int) as nat,
            clock.timeline as nat,
        )
    }

    /// What is due on a tick `elapsed` nanoseconds into the stream, when `samples` samples have
    /// passed since the audio began: the session after it, the keepalive, the report, the timing
    /// announcement, and the failure that ends the stream, if any.
    pub open spec fn tick(self, clock: Clock, now: nat, elapsed: nat, samples: nat) -> (
        SessionView,
        Option<Seq<u8>>,
        Option<Report>,
        Option<Seq<u8>>,
        Option<Failure>,
    ) {
        if self.frames == 0 && elapsed >= PATIENCE {
            (self, None, None, None, Some(Failure::NoVideo))
        } else if self.origin is None && elapsed >= PATIENCE {
            (self, None, None, None, Some(Failure::NoAudio))
        } else {
            (
                SessionView { reported: self.frames, max_queue: 0, max_send: 0, ..self },
                if self.frames > 0 {
                    Some(keepalive_bytes())
                } else {
                    None
                },
                Some(
                    Report {
                        frames: ((self.frames - self.reported) % two_64()) as u64,
                        max_queue_millis: (self.max_queue / 1_000_000) as u64,
                        max_send_millis: (self.max_send / 1_000_000) as u64,
                        lead_millis: self.latency.lead_millis(),
                    },
                ),
                match self.origin {
                    None => None,
                    Some(origin) => Some(
                        self.sync(clock, now, rtp_plus(origin.1 as int, samples as int), false),
                    ),
                },
                None,
            )
        }
    }

    /// The session after a picture was sent, `waited` nanoseconds after its capture and in
    /// `spent` nanoseconds.
    pub open spec fn sent(self, waited: nat, spent: nat) -> SessionView {
        SessionView {
            frames: self.frames + 1,
            max_queue: if waited > self.max_queue {
                waited
            } else {
                self.max_queue
            },
            max_send: if spent > self.max_send {
                spent
            } else {
                self.max_send
            },
            ..self
        }
    }
}

/// Progress is told on the first picture and on every thirtieth.
pub open spec fn progress_after(frames: nat) -> Option<nat> {
    if frames == 1 || frames % 30 == 0 {
        Some(frames)
    } else {
        None
    }
}

/// The kept packets after one more, the oldest leaving where there is no more room.
pub open spec fn remembered(history: Seq<(nat, Seq<u8>)>, sequence: nat, packet: Seq<u8>) -> Seq<
    (nat, Seq<u8>),
> {
    if history.len() == HISTORY {
        history.drop_first().push((sequence, packet))
    } else {
        history.push((sequence, packet))
    }
}

/// The kept packet with the given number.
pub open spec fn lookup_packet(history: Seq<(nat, Seq<u8>)>, sequence: nat) -> Option<Seq<u8>>
    decreases history.len(),
{
    if history.len() == 0 {
        None
    } else if history[0].0 == sequence {
        Some(history[0].1)
    } else {
        lookup_packet(history.drop_first(), sequence)
    }
}

/// A packet sent again, in answer to the request tagged `tag`.
pub open spec fn resent_packet(tag: Seq<u8>, packet: Seq<u8>) -> Seq<u8> {
    seq![0x80u8, 0xd6u8] + tag + packet
}

/// The packets sent again from number `first` on: at most `count`, up to the first that is gone.
pub open spec fn resent(
    history: Seq<(nat, Seq<u8>)>,
    tag: Seq<u8>,
    first: nat,
    count: nat,
) -> Seq<Seq<u8>>
    decreases count,
{
    if count == 0 {
        Seq::empty()
    } else {
        match lookup_packet(history, first % 0x1_0000) {
            None => Seq::empty(),
            Some(packet) => seq![resent_packet(tag, packet)] + resent(
                history,
                tag,
                first + 1,
                (count - 1) as nat,
            ),
        }
    }
}

/// A request to send audio packets again.
pub open spec fn is_request(request: Seq<u8>) -> bool {
    request.len() == 8 && request[0] == 0x80 && request[1] == 0xd5
}

/// How many packets a request asks for: never more than are kept.
pub open spec fn asked_count(request: Seq<u8>) -> nat {
    let count = be_value(request.subrange(6, 8));
    if count > HISTORY {
        HISTORY as nat
    } else {
        count
    }
}

/// The answer to what arrived on the control socket. Anything but a request gets none.
pub open spec fn answer(history: Seq<(nat, Seq<u8>)>, request: Seq<u8>) -> Seq<Seq<u8>> {
    if is_request(request) {
        resent(
            history,
            request.subrange(2, 4),
            be_value(request.subrange(4, 6)),
            asked_count(request),
        )
    } else {
        Seq::empty()
    }
}

/// What a stream has to react to.
pub enum Incoming {
    /// A picture captured at `time`.
    Video { time: u64, units: Vec<Vec<u8>> },
    /// The packets of a picture went out, `waited` nanoseconds after its capture and in `spent`.
    VideoSent { waited: u64, spent: u64 },
    /// A block of audio captured at `time`.
    Audio { time: u64, pcm: Vec<u8> },
    /// The regular tick, `elapsed` nanoseconds into the stream and `samples` samples after the
    /// audio began.
    Heartbeat { now: u64, elapsed: u64, samples: u32 },
    /// Something arrived on the control socket.
    Request(Vec<u8>),
    /// Capture or the control connection failed, for the reason given.
    Failed(String),
    /// No more frames will come.
    Ended,
}

#[verifier::ext_equal]
pub enum IncomingView {
    Video { time: nat, units: Seq<Seq<u8>> },
    VideoSent { waited: nat, spent: nat },
    Audio { time: nat, pcm: Seq<u8> },
    Heartbeat { now: nat, elapsed: nat, samples: nat },
    Request(Seq<u8>),
    Failed(Seq<char>),
    Ended,
}

impl Incoming {
    pub open spec fn view(self) -> IncomingView {
        match self {
            Incoming::Video { time, units } => IncomingView::Video {
                time: time as nat,
                units: owned(units@),
            },
            Incoming::VideoSent { waited, spent } => IncomingView::VideoSent {
                waited: waited as nat,
                spent: spent as nat,
            },
            Incoming::Audio { time, pcm } => IncomingView::Audio { time: time as nat, pcm: pcm@ },
            Incoming::Heartbeat { now, elapsed, samples } => IncomingView::Heartbeat {
                now: now as nat,
                elapsed: elapsed as nat,
                samples: samples as nat,
            },
            Incoming::Request(request) => IncomingView::Request(request@),
            Incoming::Failed(reason) => IncomingView::Failed(reason@),
            Incoming::Ended => IncomingView::Ended,
        }
    }
}

/// Why a stream ends: something could not be sent or came too late, or what feeds it failed.
#[derive(Debug, PartialEq, Eq)]
pub enum StreamEnd {
    Refused(Failure),
    Failed(String),
}

#[verifier::ext_equal]
pub enum StreamEndView {
    Refused(Failure),
    Failed(Seq<char>),
}

impl StreamEnd {
    pub open spec fn view(self) -> StreamEndView {
        match self {
            StreamEnd::Refused(failure) => StreamEndView::Refused(failure),
            StreamEnd::Failed(reason) => StreamEndView::Failed(reason@),
        }
    }

    /// What to tell about it.
    pub fn message(&self) -> (r: &str)
        ensures
            r@ == (match self.view() {
                StreamEndView::Refused(failure) => failure.text(),
                StreamEndView::Failed(reason) => reason,
            }),
    {
        match self {
            StreamEnd::Refused(failure) => failure.message(),
            StreamEnd::Failed(reason) => reason.as_str(),
        }
    }
}

/// A failure as the end of a stream.
pub open spec fn refusal(failure: Option<Failure>) -> Option<StreamEndView> {
    match failure {
        None => None,
        Some(failure) => Some(StreamEndView::Refused(failure)),
    }
}

fn refused(failure: Option<Failure>) -> (r: Option<StreamEnd>)
    ensures
        end_in(r) == refusal(failure),
{
    match failure {
        None => None,
        Some(failure) => Some(StreamEnd::Refused(failure)),
    }
}

pub open spec fn end_in(end: Option<StreamEnd>) -> Option<StreamEndView> {
    match end {
        None => None,
        Some(end) => Some(end.view()),
    }
}

/// What to do after an event, in this order; a failure ends the stream after that.
pub struct Turn {
    pub video: Vec<Vec<u8>>,
    pub report: Option<Report>,
    pub control: Vec<Vec<u8>>,
    pub audio: Vec<Vec<u8>>,
    pub progress: Option<u64>,
    pub failure: Option<StreamEnd>,
}

#[verifier::ext_equal]
pub struct TurnView {
    pub video: Seq<Seq<u8>>,
    pub report: Option<Report>,
    pub control: Seq<Seq<u8>>,
    pub audio: Seq<Seq<u8>>,
    pub progress: Option<nat>,
    pub failure: Option<StreamEndView>,
}

impl Turn {
    pub open spec fn view(self) -> TurnView {
        TurnView {
            video: owned(self.video@),
            report: self.report,
            control: owned(self.control@),
            audio: owned(self.audio@),
            progress: match self.progress {
                None => None,
                Some(frames) => Some(frames as nat),
            },
            failure: end_in(self.failure),
        }
    }
}

/// Nothing to do.
pub open spec fn quiet() -> TurnView {
    TurnView {
        video: Seq::empty(),
        report: None,
        control: Seq::empty(),
        audio: Seq::empty(),
        progress: None,
        failure: None,
    }
}

pub open spec fn list_of(packet: Option<Seq<u8>>) -> Seq<Seq<u8>> {
    match packet {
        None => Seq::empty(),
        Some(packet) => seq![packet],
    }
}

fn listed(packet: Option<Vec<u8>>) -> (r: Vec<Vec<u8>>)
    ensures
        owned(r@) == list_of(bytes_in(packet)),
{
    let mut r: Vec<Vec<u8>> = Vec::new();
    if let Some(packet) = packet {
        r.push(packet);
    }
    assert(owned(r@) =~= list_of(bytes_in(packet)));
    r
}

impl SessionView {
    /// One turn of the stream: the session after an event, and what to do.
    pub open spec fn turn(self, clock: Clock, event: IncomingView) -> (SessionView, TurnView) {
        match event {
            IncomingView::Video { time, units } => {
                let outcome = self.video(clock, time as int, units);
                (outcome.0, TurnView { video: outcome.1, failure: refusal(outcome.2), ..quiet() })
            },
            IncomingView::VideoSent { waited, spent } => {
                let next = self.sent(waited, spent);
                (next, TurnView { progress: progress_after(next.frames), ..quiet() })
            },
            IncomingView::Audio { time, pcm } => {
                let outcome = self.audio(clock, time, pcm);
                (
                    outcome.0,
                    TurnView {
                        control: list_of(outcome.1),
                        audio: list_of(outcome.2),
                        failure: refusal(outcome.3),
                        ..quiet()
                    },
                )
            },
            IncomingView::Heartbeat { now, elapsed, samples } => {
                let outcome = self.tick(clock, now, elapsed, samples);
                (
                    outcome.0,
                    TurnView {
                        video: list_of(outcome.1),
                        report: outcome.2,
                        control: list_of(outcome.3),
                        failure: refusal(outcome.4),
                        ..quiet()
                    },
                )
            },
            IncomingView::Request(request) => (
                self,
                TurnView { control: answer(self.history, request), ..quiet() },
            ),
            IncomingView::Failed(reason) => (
                self,
                TurnView { failure: Some(StreamEndView::Failed(reason)), ..quiet() },
            ),
            IncomingView::Ended => (
                self,
                TurnView { failure: refusal(Some(Failure::CaptureStopped)), ..quiet() },
            ),
        }
    }
}

proof fn lemma_pair_value(s: Seq<u8>)
    requires
        s.len() == 2,
    ensures
        be_value(s) == s[0] * 256 + s[1],
{
    reveal_with_fuel(be_value, 3);
    assert(s.drop_last() == seq![s[0]]);
    assert(s.drop_last().drop_last().len() == 0);
}

proof fn lemma_configuration_len(sps: Seq<u8>, pps: Seq<u8>)
    ensures
        configuration(sps, pps).len() == 11 + sps.len() + pps.len(),
{
    crate::bytes::lemma_be_bytes_len(sps.len(), 2);
    crate::bytes::lemma_be_bytes_len(pps.len(), 2);
}

impl MirrorSession {
    /// A session for a negotiated stream. `dimensions` is the width and the height, each as the
    /// four little-endian bytes of a single-precision number.
    pub fn new(
        video_key: [u8; 32],
        audio_key: [u8; 32],
        rtp: u32,
        ssrc: u32,
        dimensions: [u8; 8],
        latency: LatencyMode,
    ) -> (r: Self)
        ensures
            r@ == opening(video_key@, audio_key@, rtp as nat, ssrc as nat, dimensions@, latency),
    {
        let r = MirrorSession {
            video_key,
            video_nonce: 0,
            audio_key,
            audio_nonce: 0,
            audio_seq: 0,
            audio_rtp: rtp,
            audio_origin: None,
            ssrc,
            history: VecDeque::new(),
            codec: None,
            dimensions,
            latency,
            frames: 0,
            reported: 0,
            max_queue: 0,
            max_send: 0,
        };
        assert(r@.history =~= Seq::empty());
        r
    }

    /// Where the audio began: the moment of capture and the RTP time.
    pub fn audio_origin(&self) -> (r: Option<(u64, u32)>)
        ensures
            match r {
                None => self@.origin is None,
                Some(origin) => self@.origin == Some((origin.0 as nat, origin.1 as nat)),
            },
    {
        self.audio_origin
    }

    /// How many pictures were sent.
    pub fn frames(&self) -> (r: u64)
        ensures
            r == self@.frames,
    {
        self.frames
    }

    /// Packs a picture captured at `time`. A changed decoder configuration goes ahead of it.
    pub fn send_video(&mut self, clock: &Clock, time: u64, units: &Vec<Vec<u8>>) -> (r: VideoOutput)
        requires
            all_nonempty(owned(units@)),
        ensures
            ({
                let outcome = old(self)@.video(*clock, time as int, owned(units@));
                &&& final(self)@ == outcome.0
                &&& owned(r.packets@) == outcome.1
                &&& r.failure == outcome.2
            }),
            r.failure is None && shown(owned(units@)).len() > 0 ==> r.packets@.len() > 0
                && opens_to_picture(old(self)@, r.packets@.last()@, owned(units@)),
    {
        let ghost all = owned(units@);
        let stamp = fixed_time(clock.at(time as u128 + self.latency.lead_nanos() as u128));
        assert(stamp == playback_stamp(self.latency, *clock, time as int));
        let mut packets: Vec<Vec<u8>> = Vec::new();
        assert(owned(packets@) =~= Seq::empty());
        let sps = find_type(units, 7);
        let pps = find_type(units, 8);
        if let (Some(sps), Some(pps)) = (sps, pps) {
            let config = match avcc_config(&units[sps], &units[pps]) {
                Ok(config) => config,
                Err(failure) => {
                    return VideoOutput { packets, failure: Some(failure) };
                },
            };
            let same = match &self.codec {
                None => false,
                Some(codec) => same_bytes(codec, &config),
            };
            if !same {
                proof {
                    lemma_configuration_len(units@[sps as int]@, units@[pps as int]@);
                }
                match build_config_packet(&config, stamp, &self.dimensions) {
                    Ok(packet) => {
                        packets.push(packet);
                    },
                    Err(failure) => {
                        return VideoOutput { packets, failure: Some(failure) };
                    },
                }
                self.codec = Some(config);
            }
        }
        let ghost next = self@;
        let ghost ahead = owned(packets@);
        proof {
            let outcome = old(self)@.video(*clock, time as int, all);
            let config = brought_config(all);
            let fresh = config is Some && old(self)@.codec != config;
            if fresh {
                assert(ahead =~= seq![config_packet(config->0, stamp as nat, old(self)@.dimensions)]);
                assert(next =~= (SessionView { codec: config, ..old(self)@ }));
            } else {
                assert(ahead =~= Seq::empty());
                assert(next =~= old(self)@);
            }
        }
        if self.codec.is_none() {
            return VideoOutput { packets, failure: Some(Failure::NoParameterSets) };
        }
        let data = picture_payload(units);
        proof {
            lemma_shown_iff_payload(all);
        }
        if data.len() == 0 {
            return VideoOutput { packets, failure: None };
        }
        if data.len() > MAX_PAYLOAD - 16 {
            return VideoOutput { packets, failure: Some(Failure::FrameTooLarge) };
        }
        let mut header = match video_header(data.len() + 16, 0, stamp, clock.timeline) {
            Ok(header) => header,
            Err(failure) => {
                return VideoOutput { packets, failure: Some(failure) };
            },
        };
        if find_type(units, 5).is_some() {
            header[5] = 0x10;
        }
        assert(header@ =~= picture_header(all, stamp as nat, clock.timeline as nat));
        let packet = match seal_video(&self.video_key, &header, self.video_nonce, &data) {
            Ok(packet) => packet,
            Err(failure) => {
                return VideoOutput { packets, failure: Some(failure) };
            },
        };
        match self.video_nonce.checked_add(1) {
            None => VideoOutput { packets, failure: Some(Failure::VideoNonces) },
            Some(counter) => {
                self.video_nonce = counter;
                let ghost sent = packet@;
                packets.push(packet);
                proof {
                    assert(owned(packets@) =~= ahead.push(sent));
                    lemma_units_fit(all);
                    picture_units_read_back(all);
                }
                VideoOutput { packets, failure: None }
            },
        }
    }

    /// Announces that sample `rtp` was captured at `time`.
    pub fn send_sync(&self, clock: &Clock, time: u64, rtp: u32, first: bool) -> (r: Vec<u8>)
        ensures
            r@ == self@.sync(*clock, time as nat, rtp as nat, first),
    {
        sync_packet(clock, first, rtp, self.latency.audio_samples(AUDIO_RATE), time)
    }

    /// Packs a block of audio captured at `time`. The first one is announced.
    pub fn send_audio(&mut self, clock: &Clock, time: u64, pcm: &[u8]) -> (r: AudioOutput)
        ensures
            ({
                let outcome = old(self)@.audio(*clock, time as nat, pcm@);
                &&& final(self)@ == outcome.0
                &&& bytes_in(r.sync) == outcome.1
                &&& bytes_in(r.packet) == outcome.2
                &&& r.failure == outcome.3
            }),
            r.packet matches Some(packet) ==> packet@.len() == 1452,
            r.packet matches Some(packet) ==> opens_to_sound(old(self)@, packet@, pcm@),
    {
        let ghost before = self@;
        let mut sync: Option<Vec<u8>> = None;
        if self.audio_origin.is_none() {
            sync = Some(self.send_sync(clock, time, self.audio_rtp, true));
            self.audio_origin = Some((time, self.audio_rtp));
        }
        let payload = match alac_verbatim(pcm) {
            Ok(payload) => payload,
            Err(failure) => {
                return AudioOutput { sync, packet: None, failure: Some(failure) };
            },
        };
        let packet = match build_audio_packet(
            &self.audio_key,
            self.audio_nonce,
            self.audio_seq,
            self.audio_rtp,
            self.ssrc,
            &payload,
        ) {
            Ok(packet) => packet,
            Err(failure) => {
                return AudioOutput { sync, packet: None, failure: Some(failure) };
            },
        };
        proof {
            encoding_keeps_the_sound(pcm@);
        }
        let mut copy: Vec<u8> = Vec::new();
        push_all(&mut copy, &packet);
        assert(copy@ =~= packet@);
        if self.history.len() == HISTORY {
            let oldest = self.history.pop_front();
        }
        self.history.push_back((self.audio_seq, copy));
        assert(kept(self.history@) =~= remembered(before.history, before.sequence, packet@));
        match self.audio_nonce.checked_add(1) {
            None => AudioOutput {
                sync,
                packet: Some(packet),
                failure: Some(Failure::AudioNonces),
            },
            Some(counter) => {
                self.audio_nonce = counter;
                self.audio_seq = self.audio_seq.wrapping_add(1);
                self.audio_rtp = self.audio_rtp.wrapping_add(PACKET_SAMPLES);
                AudioOutput { sync, packet: Some(packet), failure: None }
            },
        }
    }

    /// Does what is due on a tick.
    pub fn heartbeat(&mut self, clock: &Clock, now: u64, elapsed: u64, samples: u32) -> (r:
        TickOutput)
        ensures
            ({
                let outcome = old(self)@.tick(
                    *clock,
                    now as nat,
                    elapsed as nat,
                    samples as nat,
                );
                &&& final(self)@ == outcome.0
                &&& bytes_in(r.keepalive) == outcome.1
                &&& r.report == outcome.2
                &&& bytes_in(r.sync) == outcome.3
                &&& r.failure == outcome.4
            }),
    {
        if self.frames == 0 && elapsed >= PATIENCE {
            return TickOutput {
                keepalive: None,
                report: None,
                sync: None,
                failure: Some(Failure::NoVideo),
            };
        }
        if self.audio_origin.is_none() && elapsed >= PATIENCE {
            return TickOutput {
                keepalive: None,
                report: None,
                sync: None,
                failure: Some(Failure::NoAudio),
            };
        }
        let keepalive = if self.frames > 0 {
            Some(keepalive_packet())
        } else {
            None
        };
        let report = Report {
            frames: self.frames.wrapping_sub(self.reported),
            max_queue_millis: self.max_queue / 1_000_000,
            max_send_millis: self.max_send / 1_000_000,
            lead_millis: self.latency.millis(),
        };
        self.reported = self.frames;
        self.max_queue = 0;
        self.max_send = 0;
        let sync = match self.audio_origin {
            None => None,
            Some(origin) => {
                let current = origin.1.wrapping_add(samples);
                Some(self.send_sync(clock, now, current, false))
            },
        };
        TickOutput { keepalive, report: Some(report), sync, failure: None }
    }

    /// Notes that a picture was sent, and says how many were when that is to be told.
    pub fn video_sent(&mut self, waited: u64, spent: u64) -> (r: Option<u64>)
        requires
            old(self)@.frames < u64::MAX,
        ensures
            final(self)@ == old(self)@.sent(waited as nat, spent as nat),
            match r {
                None => progress_after(final(self)@.frames) is None,
                Some(frames) => progress_after(final(self)@.frames) == Some(frames as nat),
            },
    {
        if waited > self.max_queue {
            self.max_queue = waited;
        }
        if spent > self.max_send {
            self.max_send = spent;
        }
        self.frames = self.frames + 1;
        if self.frames == 1 || self.frames % 30 == 0 {
            Some(self.frames)
        } else {
            None
        }
    }

    fn find_packet(&self, sequence: u16) -> (r: Option<usize>)
        ensures
            match r {
                None => lookup_packet(self@.history, sequence as nat) is None,
                Some(i) => i < self@.history.len() && lookup_packet(self@.history, sequence as nat)
                    == Some(self@.history[i as int].1),
            },
    {
        let ghost history = self@.history;
        let mut at: usize = 0;
        assert(history.skip(0) =~= history);
        while at < self.history.len()
            invariant
                at <= self.history@.len(),
                history == kept(self.history@),
                history == self@.history,
                lookup_packet(history, sequence as nat) == lookup_packet(
                    history.skip(at as int),
                    sequence as nat,
                ),
            decreases self.history@.len() - at,
        {
            assert(history.skip(at as int).drop_first() =~= history.skip(at + 1));
            if self.history[at].0 == sequence {
                return Some(at);
            }
            at = at + 1;
        }
        None
    }

    /// Answers what arrived on the control socket.
    pub fn retransmit(&self, request: &[u8]) -> (r: Vec<Vec<u8>>)
        ensures
            owned(r@) == answer(self@.history, request@),
    {
        let mut packets: Vec<Vec<u8>> = Vec::new();
        assert(owned(packets@) =~= Seq::empty());
        if request.len() != 8 || request[0] != 0x80 || request[1] != 0xd5 {
            return packets;
        }
        proof {
            lemma_pair_value(request@.subrange(4, 6));
            lemma_pair_value(request@.subrange(6, 8));
        }
        let first: u16 = request[4] as u16 * 256 + request[5] as u16;
        let asked: u16 = request[6] as u16 * 256 + request[7] as u16;
        let count: u16 = if asked > 512 {
            512
        } else {
            asked
        };
        let ghost history = self@.history;
        let ghost tag = request@.subrange(2, 4);
        let mut offset: u16 = 0;
        while offset < count
            invariant
                offset <= count,
                count <= 512,
                is_request(request@),
                first == be_value(request@.subrange(4, 6)),
                count == asked_count(request@),
                history == self@.history,
                tag == request@.subrange(2, 4),
                owned(packets@) + resent(
                    history,
                    tag,
                    (first + offset) as nat,
                    (count - offset) as nat,
                ) == resent(history, tag, first as nat, count as nat),
            decreases count - offset,
        {
            let sequence: u16 = first.wrapping_add(offset);
            assert(sequence == (first + offset) % 0x1_0000);
            match self.find_packet(sequence) {
                None => {
                    assert(owned(packets@) =~= resent(history, tag, first as nat, count as nat));
                    return packets;
                },
                Some(i) => {
                    let mut response: Vec<u8> = Vec::new();
                    response.push(0x80);
                    response.push(0xd6);
                    response.push(request[2]);
                    response.push(request[3]);
                    push_all(&mut response, &self.history[i].1);
                    assert(response@ =~= resent_packet(tag, history[i as int].1));
                    let ghost before = owned(packets@);
                    let ghost added = response@;
                    packets.push(response);
                    assert(owned(packets@) =~= before.push(added));
                    assert(owned(packets@) + resent(
                        history,
                        tag,
                        (first + offset + 1) as nat,
                        (count - offset - 1) as nat,
                    ) =~= before + resent(
                        history,
                        tag,
                        (first + offset) as nat,
                        (count - offset) as nat,
                    ));
                },
            }
            offset = offset + 1;
        }
        assert(owned(packets@) =~= resent(history, tag, first as nat, count as nat));
        packets
    }

    /// One turn of the stream: takes in what happened and says what to send.
    pub fn run(&mut self, clock: &Clock, event: &Incoming) -> (r: Turn)
        requires
            event matches Incoming::Video { units, .. } ==> all_nonempty(owned(units@)),
            event is VideoSent ==> old(self)@.frames < u64::MAX,
        ensures
            (final(self)@, r.view()) == old(self)@.turn(*clock, event.view()),
            event matches Incoming::Video { units, .. } ==> r.failure is None && shown(
                owned(units@),
            ).len() > 0 ==> r.video@.len() > 0 && opens_to_picture(
                old(self)@,
                r.video@.last()@,
                owned(units@),
            ),
            event matches Incoming::Audio { pcm, .. } ==> pcm@.len() == PCM_BYTES ==> r.audio@.len()
                == 1 && opens_to_sound(old(self)@, r.audio@[0]@, pcm@),
    {
        let ghost before = self@;
        let mut turn = Turn {
            video: Vec::new(),
            report: None,
            control: Vec::new(),
            audio: Vec::new(),
            progress: None,
            failure: None,
        };
        assert(turn.view() =~= quiet());
        match event {
            Incoming::Video { time, units } => {
                let output = self.send_video(clock, *time, units);
                turn.video = output.packets;
                turn.failure = refused(output.failure);
            },
            Incoming::VideoSent { waited, spent } => {
                turn.progress = self.video_sent(*waited, *spent);
            },
            Incoming::Audio { time, pcm } => {
                let output = self.send_audio(clock, *time, pcm);
                turn.control = listed(output.sync);
                turn.audio = listed(output.packet);
                proof {
                    let sent = owned(turn.audio@);
                    assert(sent.len() == turn.audio@.len());
                    if sent.len() == 1 {
                        assert(sent[0] == turn.audio@[0]@);
                    }
                }
                turn.failure = refused(output.failure);
            },
            Incoming::Heartbeat { now, elapsed, samples } => {
                let output = self.heartbeat(clock, *now, *elapsed, *samples);
                turn.video = listed(output.keepalive);
                turn.report = output.report;
                turn.control = listed(output.sync);
                turn.failure = refused(output.failure);
            },
            Incoming::Request(request) => {
                turn.control = self.retransmit(request);
            },
            Incoming::Failed(reason) => {
                turn.failure = Some(StreamEnd::Failed(reason.as_str().to_owned()));
            },
            Incoming::Ended => {
                turn.failure = refused(Some(Failure::CaptureStopped));
            },
        }
        assert(turn.view() =~= before.turn(*clock, event.view()).1);
        turn
    }
}

} // verus!
