//! Setting up a stream: which request follows which answer.

use crate::clock::{reported_nanos, view_of, Clock};
use crate::crypto::{derive_key, derived};
use crate::failure::Failure;
use crate::identity::{
    device_id, fresh_key, is_short_id, is_uuid, rtp_start, session_id, stream_id,
};
use crate::mirror::{opening, MirrorSession, SessionView};
use crate::property_list::{
    binary, canonical_values_are_normal, parse, plist_bytes, read_tree, Node, Tree,
};
use crate::requests::{
    audio_ports, audio_ports_in, audio_request, audio_request_is_canonical, audio_tree,
    control_request, control_request_is_canonical, control_tree, event_port, event_port_in,
    peer_tree, skip_record, skips_record, timeline, timeline_in, video_port, video_port_in,
    video_request, video_request_is_canonical, video_tree,
};
use crate::settings::LatencyMode;
use crate::setup_laws::{asks_rightly, lemma_asks_for_pictures, lemma_asks_for_sound};
use crate::text::{decimal, push_decimal, text_of};
use vstd::prelude::*;
use vstd::string::*;

verus! {

/// What is known of the two sides of a connection when a stream is to be set up.
pub struct Terms {
    /// The receiver's address.
    pub remote: String,
    /// The address of this side's end of the control connection.
    pub local: Option<String>,
    /// The secret of a verified pairing.
    pub secret: Option<[u8; 32]>,
    /// The receiver's feature bits.
    pub features: u64,
    /// The port of the socket for audio control.
    pub control_port: u16,
    pub stream_key: [u8; 16],
    pub stream_iv: [u8; 16],
    /// The width and the height, each as the four little-endian bytes of a single-precision
    /// number.
    pub dimensions: [u8; 8],
}

/// The identifiers and keys that are made up for one stream.
pub struct Tokens {
    pub video_id: u64,
    pub audio_id: u64,
    pub peer_id: String,
    pub device_id: String,
    pub session_id: String,
    pub audio_key: [u8; 32],
    pub rtp: u32,
    pub ssrc: u32,
}

impl Tokens {
    /// Made-up identifiers and keys; the stream identifiers fit a signed 64-bit number, the device
    /// has a short identifier, the peer and the session have UUIDs.
    pub fn fresh() -> (r: Self)
        ensures
            r.video_id <= i64::MAX,
            r.audio_id <= i64::MAX,
            is_uuid(r.peer_id@),
            is_short_id(r.device_id@),
            is_uuid(r.session_id@),
    {
        Tokens {
            video_id: stream_id(),
            audio_id: stream_id(),
            peer_id: session_id(),
            device_id: device_id(),
            session_id: session_id(),
            audio_key: fresh_key(),
            rtp: rtp_start(),
            ssrc: rtp_start(),
        }
    }
}

/// The answer that a negotiation is waiting for.
#[derive(Clone, Copy, Debug, PartialEq, Eq, Structural)]
pub enum Stage {
    Control,
    Events,
    Record,
    Audio,
    AudioSockets,
    Video,
    VideoSocket,
    Volume,
    Ready,
    Failed,
}

impl Stage {
    pub open spec fn description_text(self) -> Seq<char> {
        match self {
            Stage::Control => "Mirroring control SETUP"@,
            Stage::Audio => "Screen audio SETUP"@,
            _ => "Screen video SETUP"@,
        }
    }

    /// Which SETUP request a failure belongs to, where it is waited for.
    pub fn description(self) -> (r: &'static str)
        ensures
            r@ == self.description_text(),
    {
        match self {
            Stage::Control => "Mirroring control SETUP",
            Stage::Audio => "Screen audio SETUP",
            _ => "Screen video SETUP",
        }
    }
}

/// What happened: a response to a request, or a connection made. Only what the stage reads
/// matters.
pub struct Reply {
    pub body: Vec<u8>,
    pub received: Option<String>,
    pub processing: Option<String>,
    pub now: u64,
}

/// What to do next.
pub enum Step {
    /// Send a SETUP request.
    Setup { uri: String, body: Vec<u8> },
    /// Connect the event channel and serve it with these keys.
    Events { port: u16, read_key: [u8; 32], write_key: [u8; 32] },
    /// Send a RECORD request.
    Record { uri: String },
    /// Connect the two audio sockets.
    AudioSockets { data: u16, control: u16 },
    /// Connect the video socket.
    VideoSocket { port: u16 },
    /// Send a SET_PARAMETER request.
    Parameter { uri: String, text: String },
    /// The receiver is ready.
    Ready,
}

pub enum StepView {
    Setup { uri: Seq<char>, body: Seq<u8> },
    Events { port: u16, read_key: Seq<u8>, write_key: Seq<u8> },
    Record { uri: Seq<char> },
    AudioSockets { data: u16, control: u16 },
    VideoSocket { port: u16 },
    Parameter { uri: Seq<char>, text: Seq<char> },
    Ready,
}

impl Step {
    pub open spec fn view(self) -> StepView {
        match self {
            Step::Setup { uri, body } => StepView::Setup { uri: uri@, body: body@ },
            Step::Events { port, read_key, write_key } => StepView::Events {
                port,
                read_key: read_key@,
                write_key: write_key@,
            },
            Step::Record { uri } => StepView::Record { uri: uri@ },
            Step::AudioSockets { data, control } => StepView::AudioSockets { data, control },
            Step::VideoSocket { port } => StepView::VideoSocket { port },
            Step::Parameter { uri, text } => StepView::Parameter { uri: uri@, text: text@ },
            Step::Ready => StepView::Ready,
        }
    }
}

/// The outcome of a step, as values.
pub open spec fn outcome_of(r: Result<Step, Failure>) -> Result<StepView, Failure> {
    match r {
        Ok(step) => Ok(step.view()),
        Err(failure) => Err(failure),
    }
}

/// The body of a SETUP request can be read back, and asks for the stream that the session will
/// send.
pub open spec fn asks_readably(r: Result<Step, Failure>, negotiation: NegotiationView) -> bool {
    match r {
        Ok(Step::Setup { uri, body }) => match read_tree(body@) {
            Some(request) => body@ == plist_bytes(request) && asks_rightly(
                request,
                uri@,
                negotiation,
            ),
            None => false,
        },
        _ => true,
    }
}

/// The events that a reply stands for, as values.
pub struct ReplyView {
    pub body: Seq<u8>,
    pub received: Option<Seq<char>>,
    pub processing: Option<Seq<char>>,
    pub now: u64,
}

impl Reply {
    pub open spec fn view(self) -> ReplyView {
        ReplyView {
            body: self.body@,
            received: text_of(self.received),
            processing: text_of(self.processing),
            now: self.now,
        }
    }
}

/// What a negotiation remembers.
pub struct NegotiationView {
    pub remote: Seq<char>,
    pub local: Seq<char>,
    pub secret: Seq<u8>,
    pub features: u64,
    pub control_port: u16,
    pub stream_key: Seq<u8>,
    pub stream_iv: Seq<u8>,
    pub dimensions: Seq<u8>,
    pub latency: LatencyMode,
    pub video_id: u64,
    pub audio_id: u64,
    pub peer_id: Seq<char>,
    pub device_id: Seq<char>,
    pub session_id: Seq<char>,
    pub audio_key: Seq<u8>,
    pub rtp: u32,
    pub ssrc: u32,
    pub stage: Stage,
    /// The receiver's clock, once it has answered.
    pub clock: Option<Clock>,
    /// The receiver wants no RECORD request.
    pub skip_record: bool,
    /// The receiver has set up a session that has to be torn down.
    pub answered: bool,
}

/// A stream that is being set up.
pub struct Negotiation {
    remote: String,
    local: String,
    secret: [u8; 32],
    features: u64,
    control_port: u16,
    stream_key: [u8; 16],
    stream_iv: [u8; 16],
    dimensions: [u8; 8],
    latency: LatencyMode,
    tokens: Tokens,
    stage: Stage,
    clock: Option<Clock>,
    skip_record: bool,
    answered: bool,
}

impl View for Negotiation {
    type V = NegotiationView;

    closed spec fn view(&self) -> NegotiationView {
        NegotiationView {
            remote: self.remote@,
            local: self.local@,
            secret: self.secret@,
            features: self.features,
            control_port: self.control_port,
            stream_key: self.stream_key@,
            stream_iv: self.stream_iv@,
            dimensions: self.dimensions@,
            latency: self.latency,
            video_id: self.tokens.video_id,
            audio_id: self.tokens.audio_id,
            peer_id: self.tokens.peer_id@,
            device_id: self.tokens.device_id@,
            session_id: self.tokens.session_id@,
            audio_key: self.tokens.audio_key@,
            rtp: self.tokens.rtp,
            ssrc: self.tokens.ssrc,
            stage: self.stage,
            clock: self.clock,
            skip_record: self.skip_record,
            answered: self.answered,
        }
    }
}

/// The address of a stream at a receiver.
pub open spec fn stream_uri(remote: Seq<char>, id: u64) -> Seq<char> {
    "rtsp://"@ + remote + "/"@ + decimal(id as nat)
}

fn uri_text(remote: &str, id: u64) -> (r: String)
    ensures
        r@ == stream_uri(remote@, id),
{
    let mut r = "rtsp://".to_owned();
    r.append(remote);
    r.append("/");
    push_decimal(&mut r, id);
    r
}

/// The salt of the video stream's key.
pub open spec fn video_salt(id: u64) -> Seq<char> {
    "DataStream-Salt"@ + decimal(id as nat)
}

/// The key that seals pictures.
pub open spec fn video_key_of(secret: Seq<u8>, id: u64) -> Seq<u8> {
    derived(
        secret,
        vstd::utf8::encode_utf8(video_salt(id)),
        vstd::utf8::encode_utf8("DataStream-Output-Encryption-Key"@),
    )
}

/// Derives the key that seals pictures of the stream with the given identifier.
pub fn video_key(secret: &[u8; 32], id: u64) -> (r: [u8; 32])
    ensures
        r@ == video_key_of(secret@, id),
{
    let mut salt = "DataStream-Salt".to_owned();
    push_decimal(&mut salt, id);
    derive_key(
        secret.as_slice(),
        salt.as_str().as_bytes(),
        "DataStream-Output-Encryption-Key".as_bytes(),
    )
}

/// A key of the event channel.
pub open spec fn event_key_of(secret: Seq<u8>, purpose: Seq<char>) -> Seq<u8> {
    derived(
        secret,
        vstd::utf8::encode_utf8("Events-Salt"@),
        vstd::utf8::encode_utf8(purpose),
    )
}

/// Derives the two keys of the event channel: for what is read and for what is written.
pub fn event_keys(secret: &[u8; 32]) -> (r: ([u8; 32], [u8; 32]))
    ensures
        r.0@ == event_key_of(secret@, "Events-Read-Encryption-Key"@),
        r.1@ == event_key_of(secret@, "Events-Write-Encryption-Key"@),
{
    (
        derive_key(
            secret.as_slice(),
            "Events-Salt".as_bytes(),
            "Events-Read-Encryption-Key".as_bytes(),
        ),
        derive_key(
            secret.as_slice(),
            "Events-Salt".as_bytes(),
            "Events-Write-Encryption-Key".as_bytes(),
        ),
    )
}

/// What the receiver said to the request for a session.
pub struct ControlAnswer {
    pub clock: Clock,
    pub event_port: Option<u16>,
    pub skip_record: bool,
}

/// How a response to the request for a session is understood.
pub open spec fn control_answer(
    body: Tree,
    received: Option<Seq<char>>,
    processing: Option<Seq<char>>,
    now: u64,
) -> Result<ControlAnswer, Failure> {
    match timeline_in(body) {
        None => Err(Failure::NoTimeline),
        Some(timeline) => match reported_nanos(received, processing) {
            Err(failure) => Err(failure),
            Ok(nanos) => Ok(
                ControlAnswer {
                    clock: Clock { anchor: now, nanos: nanos as u64, timeline },
                    event_port: event_port_in(body),
                    skip_record: skips_record(body),
                },
            ),
        },
    }
}

fn as_text(text: &Option<String>) -> (r: Option<&str>)
    ensures
        view_of(r) == text_of(*text),
{
    match text {
        None => None,
        Some(text) => Some(text.as_str()),
    }
}

/// Understands the response to the request for a session.
pub fn read_control(
    body: &Node,
    received: &Option<String>,
    processing: &Option<String>,
    now: u64,
) -> (r: Result<ControlAnswer, Failure>)
    ensures
        r == control_answer(body.tree(), text_of(*received), text_of(*processing), now),
{
    let timeline = match timeline(body) {
        Ok(timeline) => timeline,
        Err(failure) => {
            return Err(failure);
        },
    };
    let mut clock = Clock { anchor: now, nanos: 0, timeline };
    match clock.update(as_text(received), as_text(processing), now) {
        Err(failure) => Err(failure),
        Ok(()) => Ok(
            ControlAnswer { clock, event_port: event_port(body), skip_record: skip_record(body) },
        ),
    }
}

impl NegotiationView {
    pub open spec fn uri(self) -> Seq<char> {
        stream_uri(self.remote, self.audio_id)
    }

    pub open spec fn video_uri(self) -> Seq<char> {
        stream_uri(self.remote, self.video_id)
    }

    /// An answer is still awaited.
    pub open spec fn active(self) -> bool {
        self.stage != Stage::Ready && self.stage != Stage::Failed
    }

    pub open spec fn fail(self, failure: Failure) -> (NegotiationView, Result<StepView, Failure>) {
        (NegotiationView { stage: Stage::Failed, ..self }, Err(failure))
    }

    /// The request for a session.
    pub open spec fn control_step(self) -> StepView {
        StepView::Setup {
            uri: self.uri(),
            body: plist_bytes(
                control_tree(
                    self.device_id,
                    self.session_id,
                    peer_tree(self.peer_id, self.local),
                ),
            ),
        }
    }

    /// Goes on to the request for the audio stream.
    pub open spec fn ask_audio(self) -> (NegotiationView, Result<StepView, Failure>) {
        (
            NegotiationView { stage: Stage::Audio, ..self },
            Ok(
                StepView::Setup {
                    uri: self.uri(),
                    body: plist_bytes(
                        audio_tree(
                            self.audio_id,
                            self.latency,
                            self.audio_key,
                            self.features,
                            self.control_port,
                        ),
                    ),
                },
            ),
        )
    }

    /// Goes on to the RECORD request, or past it where the receiver wants none.
    pub open spec fn ask_record(self) -> (NegotiationView, Result<StepView, Failure>) {
        if self.skip_record {
            self.ask_audio()
        } else {
            (
                NegotiationView { stage: Stage::Record, ..self },
                Ok(StepView::Record { uri: self.uri() }),
            )
        }
    }

    /// Goes on to the event channel, or past it where the receiver has none.
    pub open spec fn ask_events(self, port: Option<u16>) -> (
        NegotiationView,
        Result<StepView, Failure>,
    ) {
        match port {
            None => self.ask_record(),
            Some(port) => (
                NegotiationView { stage: Stage::Events, ..self },
                Ok(
                    StepView::Events {
                        port,
                        read_key: event_key_of(self.secret, "Events-Read-Encryption-Key"@),
                        write_key: event_key_of(self.secret, "Events-Write-Encryption-Key"@),
                    },
                ),
            ),
        }
    }

    /// Goes on to the request for the video stream.
    pub open spec fn ask_video(self) -> (NegotiationView, Result<StepView, Failure>) {
        (
            NegotiationView { stage: Stage::Video, ..self },
            Ok(
                StepView::Setup {
                    uri: self.video_uri(),
                    body: plist_bytes(
                        video_tree(
                            self.video_id,
                            self.latency,
                            self.stream_key,
                            self.stream_iv,
                        ),
                    ),
                },
            ),
        )
    }

    /// The negotiation after a reply, and what to do next.
    pub open spec fn after(self, reply: ReplyView) -> (NegotiationView, Result<StepView, Failure>) {
        match self.stage {
            Stage::Control => {
                let begun = NegotiationView { answered: true, ..self };
                match read_tree(reply.body) {
                    None => begun.fail(Failure::PropertyList),
                    Some(body) => match control_answer(
                        body,
                        reply.received,
                        reply.processing,
                        reply.now,
                    ) {
                        Err(failure) => begun.fail(failure),
                        Ok(answer) => NegotiationView {
                            clock: Some(answer.clock),
                            skip_record: answer.skip_record,
                            ..begun
                        }.ask_events(answer.event_port),
                    },
                }
            },
            Stage::Events => self.ask_record(),
            Stage::Record => self.ask_audio(),
            Stage::Audio => match read_tree(reply.body) {
                None => self.fail(Failure::PropertyList),
                Some(body) => match audio_ports_in(body) {
                    Err(failure) => self.fail(failure),
                    Ok(ports) => (
                        NegotiationView { stage: Stage::AudioSockets, ..self },
                        Ok(StepView::AudioSockets { data: ports.0, control: ports.1 }),
                    ),
                },
            },
            Stage::AudioSockets => self.ask_video(),
            Stage::Video => match read_tree(reply.body) {
                None => self.fail(Failure::PropertyList),
                Some(body) => match video_port_in(body) {
                    Err(failure) => self.fail(failure),
                    Ok(port) => (
                        NegotiationView { stage: Stage::VideoSocket, ..self },
                        Ok(StepView::VideoSocket { port }),
                    ),
                },
            },
            Stage::VideoSocket => (
                NegotiationView { stage: Stage::Volume, ..self },
                Ok(StepView::Parameter { uri: self.uri(), text: "volume: 0.000000\r\n"@ }),
            ),
            Stage::Volume => (NegotiationView { stage: Stage::Ready, ..self }, Ok(StepView::Ready)),
            Stage::Ready => (self, Ok(StepView::Ready)),
            Stage::Failed => (self, Err(Failure::SetupOver)),
        }
    }

    /// The session that a finished negotiation opens.
    pub open spec fn session(self) -> SessionView {
        opening(
            video_key_of(self.secret, self.video_id),
            self.audio_key,
            self.rtp as nat,
            self.ssrc as nat,
            self.dimensions,
            self.latency,
        )
    }
}

/// The negotiation that begins with the given terms.
pub open spec fn beginning(
    terms: Terms,
    local: Seq<char>,
    secret: Seq<u8>,
    latency: LatencyMode,
    tokens: Tokens,
) -> NegotiationView {
    NegotiationView {
        remote: terms.remote@,
        local,
        secret,
        features: terms.features,
        control_port: terms.control_port,
        stream_key: terms.stream_key@,
        stream_iv: terms.stream_iv@,
        dimensions: terms.dimensions@,
        latency,
        video_id: tokens.video_id,
        audio_id: tokens.audio_id,
        peer_id: tokens.peer_id@,
        device_id: tokens.device_id@,
        session_id: tokens.session_id@,
        audio_key: tokens.audio_key@,
        rtp: tokens.rtp,
        ssrc: tokens.ssrc,
        stage: Stage::Control,
        clock: None,
        skip_record: false,
        answered: false,
    }
}

impl Negotiation {
    /// Begins a negotiation: pairing has to be verified, and the local address known.
    pub fn begin(terms: Terms, latency: LatencyMode, tokens: Tokens) -> (r: Result<
        Negotiation,
        Failure,
    >)
        ensures
            match (terms.secret, terms.local) {
                (None, _) => r matches Err(failure) && failure == Failure::NotVerified,
                (Some(_), None) => r matches Err(failure) && failure == Failure::NoLocalAddress,
                (Some(secret), Some(local)) => r matches Ok(negotiation) && negotiation@
                    == beginning(terms, local@, secret@, latency, tokens),
            },
    {
        let secret = match terms.secret {
            None => {
                return Err(Failure::NotVerified);
            },
            Some(secret) => secret,
        };
        let local = match terms.local {
            None => {
                return Err(Failure::NoLocalAddress);
            },
            Some(local) => local,
        };
        Ok(
            Negotiation {
                remote: terms.remote,
                local,
                secret,
                features: terms.features,
                control_port: terms.control_port,
                stream_key: terms.stream_key,
                stream_iv: terms.stream_iv,
                dimensions: terms.dimensions,
                latency,
                tokens,
                stage: Stage::Control,
                clock: None,
                skip_record: false,
                answered: false,
            },
        )
    }

    /// The first request.
    pub fn first(&self) -> (r: Result<Step, Failure>)
        ensures
            outcome_of(r) == Ok::<StepView, Failure>(self@.control_step()),
    {
        let request = control_request(
            self.tokens.device_id.as_str(),
            self.tokens.session_id.as_str(),
            self.tokens.peer_id.as_str(),
            self.local.as_str(),
        );
        proof {
            control_request_is_canonical(
                self.tokens.device_id@,
                self.tokens.session_id@,
                self.tokens.peer_id@,
                self.local@,
            );
            canonical_values_are_normal(request.tree());
        }
        match binary(&request) {
            Err(failure) => Err(failure),
            Ok(body) => Ok(
                Step::Setup { uri: uri_text(self.remote.as_str(), self.tokens.audio_id), body },
            ),
        }
    }

    fn ask_audio(&mut self) -> (r: Result<Step, Failure>)
        ensures
            (final(self)@, outcome_of(r)) == old(self)@.ask_audio(),
            asks_readably(r, final(self)@),
    {
        let request = audio_request(
            self.tokens.audio_id,
            self.latency,
            &self.tokens.audio_key,
            self.features,
            self.control_port,
        );
        proof {
            audio_request_is_canonical(
                self.tokens.audio_id,
                self.latency,
                self.tokens.audio_key@,
                self.features,
                self.control_port,
            );
            lemma_asks_for_sound(self@);
            canonical_values_are_normal(request.tree());
        }
        self.stage = Stage::Audio;
        match binary(&request) {
            Err(failure) => Err(failure),
            Ok(body) => Ok(
                Step::Setup { uri: uri_text(self.remote.as_str(), self.tokens.audio_id), body },
            ),
        }
    }

    fn ask_record(&mut self) -> (r: Result<Step, Failure>)
        ensures
            (final(self)@, outcome_of(r)) == old(self)@.ask_record(),
            asks_readably(r, final(self)@),
    {
        if self.skip_record {
            self.ask_audio()
        } else {
            self.stage = Stage::Record;
            Ok(Step::Record { uri: uri_text(self.remote.as_str(), self.tokens.audio_id) })
        }
    }

    fn ask_video(&mut self) -> (r: Result<Step, Failure>)
        ensures
            (final(self)@, outcome_of(r)) == old(self)@.ask_video(),
            asks_readably(r, final(self)@),
    {
        let request = video_request(
            self.tokens.video_id,
            self.latency,
            &self.stream_key,
            &self.stream_iv,
        );
        proof {
            video_request_is_canonical(
                self.tokens.video_id,
                self.latency,
                self.stream_key@,
                self.stream_iv@,
            );
            lemma_asks_for_pictures(self@);
            canonical_values_are_normal(request.tree());
        }
        self.stage = Stage::Video;
        match binary(&request) {
            Err(failure) => Err(failure),
            Ok(body) => Ok(
                Step::Setup { uri: uri_text(self.remote.as_str(), self.tokens.video_id), body },
            ),
        }
    }

    fn fail(&mut self, failure: Failure) -> (r: Result<Step, Failure>)
        ensures
            (final(self)@, outcome_of(r)) == old(self)@.fail(failure),
    {
        self.stage = Stage::Failed;
        Err(failure)
    }

    /// Takes in the response to the request for a session.
    fn control_answered(&mut self, reply: &Reply) -> (r: Result<Step, Failure>)
        requires
            old(self)@.stage == Stage::Control,
        ensures
            (final(self)@, outcome_of(r)) == old(self)@.after(reply.view()),
            asks_readably(r, final(self)@),
    {
        self.answered = true;
        let body = match parse(&reply.body) {
            Err(failure) => {
                return self.fail(failure);
            },
            Ok(body) => body,
        };
        match read_control(&body, &reply.received, &reply.processing, reply.now) {
            Err(failure) => self.fail(failure),
            Ok(answer) => {
                self.clock = Some(answer.clock);
                self.skip_record = answer.skip_record;
                match answer.event_port {
                    None => self.ask_record(),
                    Some(port) => {
                        self.stage = Stage::Events;
                        let keys = event_keys(&self.secret);
                        Ok(Step::Events { port, read_key: keys.0, write_key: keys.1 })
                    },
                }
            },
        }
    }

    /// Takes in a reply and says what to do next. A failed negotiation stays failed.
    pub fn next(&mut self, reply: &Reply) -> (r: Result<Step, Failure>)
        ensures
            (final(self)@, outcome_of(r)) == old(self)@.after(reply.view()),
            asks_readably(r, final(self)@),
    {
        match self.stage {
            Stage::Control => self.control_answered(reply),
            Stage::Events => self.ask_record(),
            Stage::Record => self.ask_audio(),
            Stage::Audio => match parse(&reply.body) {
                Err(failure) => self.fail(failure),
                Ok(body) => match audio_ports(&body) {
                    Err(failure) => self.fail(failure),
                    Ok(ports) => {
                        self.stage = Stage::AudioSockets;
                        Ok(Step::AudioSockets { data: ports.0, control: ports.1 })
                    },
                },
            },
            Stage::AudioSockets => self.ask_video(),
            Stage::Video => match parse(&reply.body) {
                Err(failure) => self.fail(failure),
                Ok(body) => match video_port(&body) {
                    Err(failure) => self.fail(failure),
                    Ok(port) => {
                        self.stage = Stage::VideoSocket;
                        Ok(Step::VideoSocket { port })
                    },
                },
            },
            Stage::VideoSocket => {
                self.stage = Stage::Volume;
                Ok(
                    Step::Parameter {
                        uri: uri_text(self.remote.as_str(), self.tokens.audio_id),
                        text: "volume: 0.000000\r\n".to_owned(),
                    },
                )
            },
            Stage::Volume => {
                self.stage = Stage::Ready;
                Ok(Step::Ready)
            },
            Stage::Ready => Ok(Step::Ready),
            Stage::Failed => Err(Failure::SetupOver),
        }
    }

    /// The answer that is awaited.
    pub fn stage(&self) -> (r: Stage)
        ensures
            r == self@.stage,
    {
        self.stage
    }

    /// The receiver's clock, once it has answered.
    pub fn clock(&self) -> (r: Option<Clock>)
        ensures
            r == self@.clock,
    {
        self.clock
    }

    /// The session to tear down when the stream ends, once the receiver has set one up.
    pub fn teardown(&self) -> (r: Option<String>)
        ensures
            text_of(r) == (if self@.answered {
                Some(self@.uri())
            } else {
                None
            }),
    {
        if self.answered {
            Some(uri_text(self.remote.as_str(), self.tokens.audio_id))
        } else {
            None
        }
    }

    /// Opens the session of a finished negotiation.
    pub fn finish(self) -> (r: MirrorSession)
        requires
            self@.stage == Stage::Ready,
        ensures
            r@ == self@.session(),
    {
        MirrorSession::new(
            video_key(&self.secret, self.tokens.video_id),
            self.tokens.audio_key,
            self.tokens.rtp,
            self.tokens.ssrc,
            self.dimensions,
            self.latency,
        )
    }
}

/// The negotiation carries the given terms and identifiers in their forms, and has not asked for
/// anything yet.
pub open spec fn begins_with_terms(
    negotiation: NegotiationView,
    terms: Terms,
    latency: LatencyMode,
) -> bool {
    &&& terms.secret matches Some(secret) && terms.local matches Some(local) && exists|tokens: Tokens|
        negotiation == #[trigger] beginning(terms, local@, secret@, latency, tokens)
    &&& negotiation.video_id <= i64::MAX
    &&& negotiation.audio_id <= i64::MAX
    &&& is_uuid(negotiation.peer_id)
    &&& is_short_id(negotiation.device_id)
    &&& is_uuid(negotiation.session_id)
}

impl MirrorSession {
    /// Begins to set up a stream with the default latency and made-up identifiers.
    pub fn setup(terms: Terms) -> (r: Result<Negotiation, Failure>)
        ensures
            match (terms.secret, terms.local) {
                (None, _) => r matches Err(failure) && failure == Failure::NotVerified,
                (Some(_), None) => r matches Err(failure) && failure == Failure::NoLocalAddress,
                (Some(_), Some(_)) => r matches Ok(negotiation) && begins_with_terms(
                    negotiation@,
                    terms,
                    LatencyMode::Interactive,
                ),
            },
    {
        Self::setup_with_latency(terms, LatencyMode::default())
    }

    /// Begins to set up a stream with made-up identifiers.
    pub fn setup_with_latency(terms: Terms, latency: LatencyMode) -> (r: Result<
        Negotiation,
        Failure,
    >)
        ensures
            match (terms.secret, terms.local) {
                (None, _) => r matches Err(failure) && failure == Failure::NotVerified,
                (Some(_), None) => r matches Err(failure) && failure == Failure::NoLocalAddress,
                (Some(_), Some(_)) => r matches Ok(negotiation) && begins_with_terms(
                    negotiation@,
                    terms,
                    latency,
                ),
            },
    {
        Negotiation::begin(terms, latency, Tokens::fresh())
    }
}

/// How far a negotiation has come.
pub open spec fn progress(stage: Stage) -> nat {
    match stage {
        Stage::Control => 0,
        Stage::Events => 1,
        Stage::Record => 2,
        Stage::Audio => 3,
        Stage::AudioSockets => 4,
        Stage::Video => 5,
        Stage::VideoSocket => 6,
        Stage::Volume => 7,
        Stage::Ready => 8,
        Stage::Failed => 9,
    }
}

/// Every reply takes a negotiation further, so that it ends after eight replies at most.
pub proof fn negotiation_always_advances(negotiation: NegotiationView, reply: ReplyView)
    requires
        negotiation.active(),
    ensures
        progress(negotiation.after(reply).0.stage) > progress(negotiation.stage),
{
}

/// From the request for the audio stream on, no stage is skipped: a receiver is ready only after
/// both streams were set up, all sockets connected and the volume set.
pub proof fn stages_are_not_skipped(negotiation: NegotiationView, reply: ReplyView)
    requires
        negotiation.active(),
        negotiation.after(reply).1 is Ok,
        progress(negotiation.after(reply).0.stage) > progress(Stage::Audio),
    ensures
        progress(negotiation.after(reply).0.stage) == progress(negotiation.stage) + 1,
{
}

/// A negotiation fails exactly when it says so, and a reply never changes its terms.
pub proof fn replies_keep_terms(negotiation: NegotiationView, reply: ReplyView)
    ensures
        ({
            let (next, outcome) = negotiation.after(reply);
            &&& next.stage == Stage::Failed <==> outcome is Err
            &&& next.stage == Stage::Ready <==> outcome == Ok::<StepView, Failure>(StepView::Ready)
            &&& next.session() == negotiation.session()
            &&& next.uri() == negotiation.uri()
            &&& negotiation.stage != Stage::Control ==> next.clock == negotiation.clock
        }),
{
}

/// The negotiation after a number of replies.
pub open spec fn after_all(negotiation: NegotiationView, replies: Seq<ReplyView>) -> NegotiationView
    decreases replies.len(),
{
    if replies.len() == 0 {
        negotiation
    } else {
        after_all(negotiation, replies.drop_last()).after(replies.last()).0
    }
}

/// Once the receiver has answered the request for a session, that session is there to be torn
/// down, however the negotiation goes on; and its clock is known unless the answer was refused.
pub proof fn answered_sessions_can_be_torn_down(
    negotiation: NegotiationView,
    replies: Seq<ReplyView>,
)
    requires
        negotiation.stage == Stage::Control,
        replies.len() > 0,
    ensures
        after_all(negotiation, replies).answered,
        after_all(negotiation, replies).stage != Stage::Failed ==> after_all(
            negotiation,
            replies,
        ).clock is Some,
        after_all(negotiation, replies).stage != Stage::Control,
    decreases replies.len(),
{
    let earlier = replies.drop_last();
    if earlier.len() == 0 {
        assert(after_all(negotiation, earlier) == negotiation);
    } else {
        answered_sessions_can_be_torn_down(negotiation, earlier);
    }
}

} // verus!
