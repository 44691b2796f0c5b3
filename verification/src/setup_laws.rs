//! What holds of the setup of a stream as a whole.

use crate::clock::Clock;
use crate::crypto::derived;
use crate::failure::Failure;
use crate::negotiation::{
    after_all, beginning, NegotiationView, ReplyView, Stage, StepView, Terms, Tokens,
};
use crate::property_list::{boolean_in, integer_in, lookup, plist_bytes, read_tree, text_in, Tree};
use crate::requests::{
    audio_request_reads_back, audio_tree, control_request_reads_back, control_tree, data_in,
    names_control_port, peer_tree, stream_in, video_request_reads_back, video_tree,
};
use crate::settings::LatencyMode;
use crate::text::{decimal, decimal_reads_back};
use vstd::prelude::*;
use vstd::utf8::encode_utf8;

verus! {

/// Two states of one negotiation: all that it began with is the same.
pub open spec fn same_terms(a: NegotiationView, b: NegotiationView) -> bool {
    a == (NegotiationView {
        stage: a.stage,
        clock: a.clock,
        skip_record: a.skip_record,
        answered: a.answered,
        ..b
    })
}

proof fn lemma_replies_keep_terms(negotiation: NegotiationView, replies: Seq<ReplyView>)
    ensures
        same_terms(after_all(negotiation, replies), negotiation),
    decreases replies.len(),
{
    if replies.len() > 0 {
        let earlier = after_all(negotiation, replies.drop_last());
        lemma_replies_keep_terms(negotiation, replies.drop_last());
        assert(same_terms(earlier.after(replies.last()).0, earlier));
    }
}

/// The key that a receiver derives for the pictures of the stream with the given identifier.
pub open spec fn picture_key(secret: Seq<u8>, id: u64) -> Seq<u8> {
    derived(
        secret,
        encode_utf8("DataStream-Salt"@ + decimal(id as nat)),
        encode_utf8("DataStream-Output-Encryption-Key"@),
    )
}

/// A key that a receiver derives for the event channel.
pub open spec fn channel_key(secret: Seq<u8>, purpose: Seq<char>) -> Seq<u8> {
    derived(secret, encode_utf8("Events-Salt"@), encode_utf8(purpose))
}

/// The address of the stream with the given identifier.
pub open spec fn address(remote: Seq<char>, id: u64) -> Seq<char> {
    "rtsp://"@ + remote + "/"@ + decimal(id as nat)
}

/// The request asks for the video stream that the session of the negotiation will send: its
/// pictures open under the key of the identifier that the request gives, and play with the lead
/// that it gives.
pub open spec fn asks_for_pictures(request: Tree, uri: Seq<char>, negotiation: NegotiationView) -> bool {
    let session = negotiation.session();
    stream_in(request, 110) matches Some(stream) && {
        &&& integer_in(stream, "streamConnectionID"@) matches Some(id) && session.video_key
            == picture_key(negotiation.secret, id) && uri == address(negotiation.remote, id)
        &&& integer_in(stream, "latencyMs"@) == Some(session.latency.lead_millis())
        &&& data_in(stream, "shk"@) == Some(negotiation.stream_key)
        &&& data_in(stream, "shiv"@) == Some(negotiation.stream_iv)
    }
}

/// The request asks for the audio stream that the session of the negotiation will send: its sound
/// opens under the key that the request gives, and is held back by the session's lead.
pub open spec fn asks_for_sound(request: Tree, uri: Seq<char>, negotiation: NegotiationView) -> bool {
    let session = negotiation.session();
    stream_in(request, 96) matches Some(stream) && {
        &&& integer_in(stream, "streamConnectionID"@) matches Some(id) && uri == address(
            negotiation.remote,
            id,
        )
        &&& data_in(stream, "shk"@) == Some(session.audio_key)
        &&& integer_in(stream, "latencyMax"@) matches Some(samples) && samples * 1000
            == session.latency.lead_millis() * 44100
        &&& integer_in(stream, "spf"@) == Some(352u64)
        &&& integer_in(stream, "sr"@) == Some(44100u64)
        &&& names_control_port(stream, negotiation.features, negotiation.control_port)
    }
}

/// Whatever a SETUP request asks for is what the session will send.
pub open spec fn asks_rightly(request: Tree, uri: Seq<char>, negotiation: NegotiationView) -> bool {
    &&& negotiation.stage == Stage::Video ==> asks_for_pictures(request, uri, negotiation)
    &&& negotiation.stage == Stage::Audio ==> asks_for_sound(request, uri, negotiation)
}

/// The request for the video stream asks for what the session will send.
pub proof fn lemma_asks_for_pictures(n: NegotiationView)
    ensures
        asks_for_pictures(
            video_tree(n.video_id, n.latency, n.stream_key, n.stream_iv),
            n.video_uri(),
            n,
        ),
{
    video_request_reads_back(n.video_id, n.latency, n.stream_key, n.stream_iv);
}

/// The request for the audio stream asks for what the session will send.
pub proof fn lemma_asks_for_sound(n: NegotiationView)
    ensures
        asks_for_sound(
            audio_tree(n.audio_id, n.latency, n.audio_key, n.features, n.control_port),
            n.uri(),
            n,
        ),
{
    audio_request_reads_back(n.audio_id, n.latency, n.audio_key, n.features, n.control_port);
}

/// Once the sockets for sound are connected, the video stream is asked for. The pictures of the
/// session that the negotiation opens in the end, whatever is answered, are sealed under the key
/// that the receiver derives from the pairing secret and the identifier in that very request. The
/// request carries the stream key of the pairing and the chosen lead.
pub proof fn pictures_open_for_the_stream_asked_for(
    terms: Terms,
    local: Seq<char>,
    secret: Seq<u8>,
    latency: LatencyMode,
    tokens: Tokens,
    replies: Seq<ReplyView>,
    reply: ReplyView,
    more: Seq<ReplyView>,
)
    requires
        after_all(beginning(terms, local, secret, latency, tokens), replies).stage
            == Stage::AudioSockets,
    ensures
        ({
            let (next, outcome) = after_all(
                beginning(terms, local, secret, latency, tokens),
                replies,
            ).after(reply);
            let session = after_all(next, more).session();
            &&& outcome matches Ok(StepView::Setup { uri, body }) && exists|request: Tree|
                {
                    &&& body == #[trigger] plist_bytes(request)
                    &&& stream_in(request, 110) matches Some(stream) && {
                        &&& integer_in(stream, "streamConnectionID"@) matches Some(id)
                            && session.video_key == picture_key(secret, id) && uri == address(
                            terms.remote@,
                            id,
                        )
                        &&& integer_in(stream, "latencyMs"@) == Some(latency.lead_millis())
                        &&& data_in(stream, "shk"@) == Some(terms.stream_key@)
                        &&& data_in(stream, "shiv"@) == Some(terms.stream_iv@)
                    }
                }
            &&& session.latency == latency
            &&& session.dimensions == terms.dimensions@
            &&& session.video_counter == 0
        }),
{
    let start = beginning(terms, local, secret, latency, tokens);
    let n = after_all(start, replies);
    let next = n.after(reply).0;
    lemma_replies_keep_terms(start, replies);
    lemma_replies_keep_terms(next, more);
    let request = video_tree(n.video_id, n.latency, n.stream_key, n.stream_iv);
    lemma_asks_for_pictures(n);
    assert(n.after(reply).1 == Ok::<StepView, Failure>(
        StepView::Setup { uri: n.video_uri(), body: plist_bytes(request) },
    ));
}

/// When the audio stream is asked for, the request carries the key under which the session that
/// the negotiation opens in the end, whatever is answered, seals its sound, and the port on which
/// that session hears about lost packets.
pub proof fn sound_opens_under_the_key_asked_for(
    terms: Terms,
    local: Seq<char>,
    secret: Seq<u8>,
    latency: LatencyMode,
    tokens: Tokens,
    replies: Seq<ReplyView>,
    reply: ReplyView,
    more: Seq<ReplyView>,
)
    requires
        ({
            let n = after_all(beginning(terms, local, secret, latency, tokens), replies);
            n.stage != Stage::Audio && n.after(reply).0.stage == Stage::Audio
        }),
    ensures
        ({
            let (next, outcome) = after_all(
                beginning(terms, local, secret, latency, tokens),
                replies,
            ).after(reply);
            let session = after_all(next, more).session();
            &&& outcome matches Ok(StepView::Setup { uri, body }) && exists|request: Tree|
                {
                    &&& body == #[trigger] plist_bytes(request)
                    &&& stream_in(request, 96) matches Some(stream) && {
                        &&& integer_in(stream, "streamConnectionID"@) matches Some(id) && uri
                            == address(terms.remote@, id)
                        &&& data_in(stream, "shk"@) == Some(session.audio_key)
                        &&& integer_in(stream, "latencyMax"@) matches Some(samples) && samples
                            * 1000 == latency.lead_millis() * 44100
                        &&& integer_in(stream, "spf"@) == Some(352u64)
                        &&& integer_in(stream, "sr"@) == Some(44100u64)
                        &&& names_control_port(stream, terms.features, terms.control_port)
                    }
                }
            &&& session.audio_key == tokens.audio_key@
            &&& session.rtp == tokens.rtp
            &&& session.ssrc == tokens.ssrc
            &&& session.audio_counter == 0
            &&& session.sequence == 0
        }),
{
    let start = beginning(terms, local, secret, latency, tokens);
    let n = after_all(start, replies);
    let next = n.after(reply).0;
    lemma_replies_keep_terms(start, replies);
    lemma_replies_keep_terms(next, more);
    assert(same_terms(next, n));
    let request = audio_tree(n.audio_id, n.latency, n.audio_key, n.features, n.control_port);
    lemma_asks_for_sound(n);
    assert(n.after(reply).1 == Ok::<StepView, Failure>(
        StepView::Setup { uri: n.uri(), body: plist_bytes(request) },
    ));
}

/// The first request asks for a screen session with this side as its peer, at the address that is
/// recorded, gets the volume and is torn down in the end.
pub proof fn sessions_are_asked_for_by_their_terms(
    terms: Terms,
    local: Seq<char>,
    secret: Seq<u8>,
    latency: LatencyMode,
    tokens: Tokens,
    replies: Seq<ReplyView>,
)
    ensures
        ({
            let start = beginning(terms, local, secret, latency, tokens);
            &&& start.control_step() matches StepView::Setup { uri, body } && {
                &&& uri == after_all(start, replies).uri()
                &&& exists|request: Tree|
                    {
                        &&& body == #[trigger] plist_bytes(request)
                        &&& text_in(request, "deviceID"@) == Some(tokens.device_id@)
                        &&& text_in(request, "sessionUUID"@) == Some(tokens.session_id@)
                        &&& text_in(request, "timingProtocol"@) == Some("PTP"@)
                        &&& boolean_in(request, "isScreenMirroringSession"@) == Some(true)
                        &&& lookup(request, "timingPeerInfo"@) matches Some(peer) && text_in(
                            peer,
                            "ID"@,
                        ) == Some(tokens.peer_id@) && lookup(peer, "Addresses"@) == Some(
                            Tree::Array(seq![Tree::Text(local)]),
                        ) && lookup(request, "timingPeerList"@) == Some(Tree::Array(seq![peer]))
                    }
            }
        }),
{
    let start = beginning(terms, local, secret, latency, tokens);
    lemma_replies_keep_terms(start, replies);
    let request = control_tree(
        start.device_id,
        start.session_id,
        peer_tree(start.peer_id, start.local),
    );
    control_request_reads_back(start.device_id, start.session_id, start.peer_id, start.local);
    assert(start.control_step()->Setup_body == plist_bytes(request));
}

/// The receiver's answer to the first request sets the clock: to the milliseconds that it reports,
/// with those it spent, at the moment of the answer and on the timeline that it names. The event
/// channel is connected where it has a port, under the keys for reading and for writing; else the
/// session is recorded, unless the receiver wants that skipped.
pub proof fn answers_set_the_clock(
    negotiation: NegotiationView,
    reply: ReplyView,
    body: Tree,
    peer: Tree,
    timeline: u64,
    millis: nat,
    spent: nat,
)
    requires
        negotiation.stage == Stage::Control,
        read_tree(reply.body) == Some(body),
        lookup(body, "timingPeerInfo"@) == Some(peer),
        integer_in(peer, "ClockID"@) == Some(timeline),
        reply.received == Some(decimal(millis)),
        reply.processing == Some(decimal(spent)) || (reply.processing is None && spent == 0),
        (millis + spent) * 1_000_000 <= u64::MAX,
    ensures
        ({
            let (next, outcome) = negotiation.after(reply);
            &&& next.clock == Some(
                Clock {
                    anchor: reply.now,
                    nanos: ((millis + spent) * 1_000_000) as u64,
                    timeline,
                },
            )
            &&& next.answered
            &&& match integer_in(body, "eventPort"@) {
                Some(port) => if 1 <= port <= 65535 {
                    outcome == Ok::<StepView, Failure>(
                        StepView::Events {
                            port: port as u16,
                            read_key: channel_key(
                                negotiation.secret,
                                "Events-Read-Encryption-Key"@,
                            ),
                            write_key: channel_key(
                                negotiation.secret,
                                "Events-Write-Encryption-Key"@,
                            ),
                        },
                    )
                } else {
                    !(outcome matches Ok(StepView::Events { .. }))
                },
                None => !(outcome matches Ok(StepView::Events { .. })),
            }
            &&& !(outcome matches Ok(StepView::Events { .. })) ==> {
                if boolean_in(body, "skipRecord"@) == Some(true) {
                    next.stage == Stage::Audio
                } else {
                    outcome == Ok::<StepView, Failure>(
                        StepView::Record { uri: address(negotiation.remote, negotiation.audio_id) },
                    )
                }
            }
        }),
{
    decimal_reads_back(millis, u64::MAX as nat);
    decimal_reads_back(spent, u64::MAX as nat);
}

/// The port that a stream of a response gives, in the plain or in the per-connection form.
pub open spec fn gives_port(stream: Tree, plain: Seq<char>, connection: Seq<char>, port: u64) -> bool {
    match integer_in(stream, plain) {
        Some(given) => given == port,
        None => match lookup(stream, "streamConnections"@) {
            None => false,
            Some(connections) => match lookup(connections, connection) {
                None => false,
                Some(described) => integer_in(described, "streamConnectionKeyPort"@) == Some(port),
            },
        },
    }
}

/// The sockets for sound are connected to the ports that the response gives, data to data and
/// control to control.
pub proof fn sound_goes_to_the_ports_given(
    negotiation: NegotiationView,
    reply: ReplyView,
    body: Tree,
    stream: Tree,
    data: u64,
    control: u64,
)
    requires
        negotiation.stage == Stage::Audio,
        read_tree(reply.body) == Some(body),
        stream_in(body, 96) == Some(stream),
        gives_port(stream, "dataPort"@, "streamConnectionTypeRTP"@, data),
        gives_port(stream, "controlPort"@, "streamConnectionTypeRTCP"@, control),
    ensures
        negotiation.after(reply).1 == (if 1 <= data <= 65535 && 1 <= control <= 65535 {
            Ok(StepView::AudioSockets { data: data as u16, control: control as u16 })
        } else {
            Err(Failure::AudioPort)
        }),
{
}

/// The video socket is connected to the port that the response gives.
pub proof fn pictures_go_to_the_port_given(
    negotiation: NegotiationView,
    reply: ReplyView,
    body: Tree,
    stream: Tree,
    port: u64,
)
    requires
        negotiation.stage == Stage::Video,
        read_tree(reply.body) == Some(body),
        stream_in(body, 110) == Some(stream),
        integer_in(stream, "dataPort"@) == Some(port),
    ensures
        negotiation.after(reply).1 == (if 1 <= port <= 65535 {
            Ok(StepView::VideoSocket { port: port as u16 })
        } else {
            Err(Failure::VideoPort)
        }),
{
}

/// What a negotiation goes through that reaches its end, by the steps it asks for after the first
/// request: sound before pictures, each stream set up before its sockets are connected, the volume
/// last.
pub proof fn steps_come_in_order(negotiation: NegotiationView, reply: ReplyView)
    requires
        negotiation.active(),
        negotiation.after(reply).1 is Ok,
    ensures
        match negotiation.after(reply).1->Ok_0 {
            StepView::Events { .. } => negotiation.stage == Stage::Control,
            StepView::Record { .. } => negotiation.stage == Stage::Control || negotiation.stage
                == Stage::Events,
            StepView::AudioSockets { .. } => negotiation.stage == Stage::Audio,
            StepView::VideoSocket { .. } => negotiation.stage == Stage::Video,
            StepView::Parameter { uri, text } => negotiation.stage == Stage::VideoSocket && uri
                == address(negotiation.remote, negotiation.audio_id) && text
                == "volume: 0.000000\r\n"@,
            StepView::Ready => negotiation.stage == Stage::Volume,
            StepView::Setup { .. } => negotiation.stage != Stage::Audio && negotiation.stage
                != Stage::Video && negotiation.stage != Stage::VideoSocket && negotiation.stage
                != Stage::Volume,
        },
{
}

/// An answer to the first request that does not name a timeline, or the receiver's time, is refused,
/// as is one that cannot be read; the session is there to be torn down all the same.
pub proof fn unusable_answers_are_refused(negotiation: NegotiationView, reply: ReplyView)
    requires
        negotiation.stage == Stage::Control,
    ensures
        ({
            let (next, outcome) = negotiation.after(reply);
            &&& next.answered
            &&& read_tree(reply.body) is None ==> outcome == Err::<StepView, Failure>(
                Failure::PropertyList,
            )
            &&& read_tree(reply.body) matches Some(body) ==> {
                &&& lookup(body, "timingPeerInfo"@) is None ==> outcome == Err::<StepView, Failure>(
                    Failure::NoTimeline,
                )
                &&& lookup(body, "timingPeerInfo"@) matches Some(peer) ==> {
                    &&& integer_in(peer, "ClockID"@) is None ==> outcome == Err::<
                        StepView,
                        Failure,
                    >(Failure::NoTimeline)
                    &&& integer_in(peer, "ClockID"@) is Some && reply.received is None ==> outcome
                        == Err::<StepView, Failure>(Failure::NoTimestamp)
                }
            }
        }),
{
}

/// A response without the wanted stream, or a stream without its port, is refused.
pub proof fn missing_ports_are_refused(
    negotiation: NegotiationView,
    reply: ReplyView,
    body: Tree,
)
    requires
        read_tree(reply.body) == Some(body),
    ensures
        negotiation.stage == Stage::Audio ==> match stream_in(body, 96) {
            None => negotiation.after(reply).1 == Err::<StepView, Failure>(Failure::NoStream),
            Some(stream) => integer_in(stream, "dataPort"@) is None && lookup(
                stream,
                "streamConnections"@,
            ) is None ==> negotiation.after(reply).1 == Err::<StepView, Failure>(
                Failure::NoAudioPort,
            ),
        },
        negotiation.stage == Stage::Video ==> match stream_in(body, 110) {
            None => negotiation.after(reply).1 == Err::<StepView, Failure>(Failure::NoStream),
            Some(stream) => integer_in(stream, "dataPort"@) is None ==> negotiation.after(reply).1
                == Err::<StepView, Failure>(Failure::NoVideoPort),
        },
{
}

} // verus!
