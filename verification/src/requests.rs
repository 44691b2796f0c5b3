//! The bodies of negotiation requests, and what is read from their responses.

use crate::failure::Failure;
use crate::packets::AUDIO_RATE;
use crate::property_list::{
    boolean, boolean_in, canonical, dictionary, distinct_keys, entry_for, entry_trees, get, integer,
    integer_in, lookup, put, single, singleton, text, text_in, Entry, Node, Tree,
};
use crate::settings::LatencyMode;
use vstd::prelude::*;

verus! {

/// This sender, as the peer of a timing session.
pub open spec fn peer_tree(peer_id: Seq<char>, local: Seq<char>) -> Tree {
    Tree::Dictionary(
        seq![
            ("ID"@, Tree::Text(peer_id)),
            ("SupportsClockPortMatchingOverride"@, Tree::Boolean(true)),
            ("DeviceType"@, Tree::Unsigned(0)),
            ("Addresses"@, Tree::Array(seq![Tree::Text(local)])),
        ],
    )
}

pub fn peer_info(peer_id: &str, local: &str) -> (r: Node)
    ensures
        r.tree() == peer_tree(peer_id@, local@),
{
    let mut entries: Vec<Entry> = Vec::new();
    put(&mut entries, "ID", text(peer_id));
    put(&mut entries, "SupportsClockPortMatchingOverride", Node::Boolean(true));
    put(&mut entries, "DeviceType", Node::Unsigned(0));
    put(&mut entries, "Addresses", singleton(text(local)));
    assert(entry_trees(entries@) =~= peer_tree(peer_id@, local@)->Dictionary_0);
    dictionary(entries)
}

/// The request for a screen session timed over PTP.
pub open spec fn control_tree(device_id: Seq<char>, session_id: Seq<char>, peer: Tree) -> Tree {
    Tree::Dictionary(
        seq![
            ("deviceID"@, Tree::Text(device_id)),
            ("macAddress"@, Tree::Text(device_id)),
            ("sessionUUID"@, Tree::Text(session_id)),
            ("sourceVersion"@, Tree::Text("980.71.1"@)),
            ("isScreenMirroringSession"@, Tree::Boolean(true)),
            ("timingProtocol"@, Tree::Text("PTP"@)),
            ("osBuildVersion"@, Tree::Text("13F69"@)),
            ("model"@, Tree::Text("Linux"@)),
            ("name"@, Tree::Text("Spielab"@)),
            ("timingPeerInfo"@, peer),
            ("timingPeerList"@, Tree::Array(seq![peer])),
            ("updateSessionRequest"@, Tree::Boolean(false)),
            ("combinedGetInfoWithControlSetup"@, Tree::Boolean(true)),
        ],
    )
}

pub fn control_request(device_id: &str, session_id: &str, peer_id: &str, local: &str) -> (r: Node)
    ensures
        r.tree() == control_tree(device_id@, session_id@, peer_tree(peer_id@, local@)),
{
    let ghost peer = peer_tree(peer_id@, local@);
    let mut entries: Vec<Entry> = Vec::new();
    put(&mut entries, "deviceID", text(device_id));
    put(&mut entries, "macAddress", text(device_id));
    put(&mut entries, "sessionUUID", text(session_id));
    put(&mut entries, "sourceVersion", text("980.71.1"));
    put(&mut entries, "isScreenMirroringSession", Node::Boolean(true));
    put(&mut entries, "timingProtocol", text("PTP"));
    put(&mut entries, "osBuildVersion", text("13F69"));
    put(&mut entries, "model", text("Linux"));
    put(&mut entries, "name", text("Spielab"));
    put(&mut entries, "timingPeerInfo", peer_info(peer_id, local));
    put(&mut entries, "timingPeerList", singleton(peer_info(peer_id, local)));
    put(&mut entries, "updateSessionRequest", Node::Boolean(false));
    put(&mut entries, "combinedGetInfoWithControlSetup", Node::Boolean(true));
    assert(entry_trees(entries@) =~= control_tree(device_id@, session_id@, peer)->Dictionary_0);
    dictionary(entries)
}

/// Whether a receiver's features ask for stream connections to be described one by one.
pub open spec fn has_stream_connections(features: u64) -> bool {
    (features >> 59) & 1 == 1
}

/// The request for the audio stream.
pub open spec fn audio_tree(
    id: u64,
    latency: LatencyMode,
    key: Seq<u8>,
    features: u64,
    port: u16,
) -> Tree {
    let common = seq![
        ("type"@, Tree::Unsigned(96)),
        ("streamConnectionID"@, Tree::Unsigned(id)),
        ("ct"@, Tree::Unsigned(2)),
        ("spf"@, Tree::Unsigned(352)),
        ("sr"@, Tree::Unsigned(44100)),
        ("audioFormat"@, Tree::Unsigned(0x40000)),
        ("latencyMin"@, Tree::Unsigned(0)),
        ("latencyMax"@, Tree::Unsigned((latency.lead_millis() * AUDIO_RATE / 1000) as u64)),
        ("audioMode"@, Tree::Text("default"@)),
        ("usingScreen"@, Tree::Boolean(true)),
        ("shk"@, Tree::Data(key)),
    ];
    let ports = if has_stream_connections(features) {
        seq![
            ("isMedia"@, Tree::Boolean(false)),
            ("supportsDynamicStreamID"@, Tree::Boolean(true)),
            (
                "streamConnections"@,
                Tree::Dictionary(
                    seq![
                        (
                            "streamConnectionTypeRTP"@,
                            Tree::Dictionary(
                                seq![
                                    (
                                        "streamConnectionKeyUseStreamEncryptionKey"@,
                                        Tree::Boolean(true),
                                    ),
                                ],
                            ),
                        ),
                        (
                            "streamConnectionTypeRTCP"@,
                            Tree::Dictionary(
                                seq![("streamConnectionKeyPort"@, Tree::Unsigned(port as u64))],
                            ),
                        ),
                    ],
                ),
            ),
        ]
    } else {
        seq![("controlPort"@, Tree::Unsigned(port as u64))]
    };
    streams_tree(Tree::Dictionary(common + ports))
}

/// A request for one stream.
pub open spec fn streams_tree(stream: Tree) -> Tree {
    Tree::Dictionary(seq![("streams"@, Tree::Array(seq![stream]))])
}

pub fn audio_request(id: u64, latency: LatencyMode, key: &[u8; 32], features: u64, port: u16) -> (r:
    Node)
    ensures
        r.tree() == audio_tree(id, latency, key@, features, port),
{
    let mut entries: Vec<Entry> = Vec::new();
    put(&mut entries, "type", Node::Unsigned(96));
    put(&mut entries, "streamConnectionID", Node::Unsigned(id));
    put(&mut entries, "ct", Node::Unsigned(2));
    put(&mut entries, "spf", Node::Unsigned(352));
    put(&mut entries, "sr", Node::Unsigned(44100));
    put(&mut entries, "audioFormat", Node::Unsigned(0x40000));
    put(&mut entries, "latencyMin", Node::Unsigned(0));
    put(&mut entries, "latencyMax", Node::Unsigned(latency.audio_samples(AUDIO_RATE) as u64));
    put(&mut entries, "audioMode", text("default"));
    put(&mut entries, "usingScreen", Node::Boolean(true));
    put(&mut entries, "shk", data(key.as_slice()));
    if (features >> 59) & 1 == 1 {
        let mut connections: Vec<Entry> = Vec::new();
        put(
            &mut connections,
            "streamConnectionTypeRTP",
            single("streamConnectionKeyUseStreamEncryptionKey", Node::Boolean(true)),
        );
        put(
            &mut connections,
            "streamConnectionTypeRTCP",
            single("streamConnectionKeyPort", Node::Unsigned(port as u64)),
        );
        assert(entry_trees(connections@) =~= seq![
            (
                "streamConnectionTypeRTP"@,
                Tree::Dictionary(
                    seq![("streamConnectionKeyUseStreamEncryptionKey"@, Tree::Boolean(true))],
                ),
            ),
            (
                "streamConnectionTypeRTCP"@,
                Tree::Dictionary(seq![("streamConnectionKeyPort"@, Tree::Unsigned(port as u64))]),
            ),
        ]);
        put(&mut entries, "isMedia", Node::Boolean(false));
        put(&mut entries, "supportsDynamicStreamID", Node::Boolean(true));
        put(&mut entries, "streamConnections", dictionary(connections));
    } else {
        put(&mut entries, "controlPort", Node::Unsigned(port as u64));
    }
    let ghost stream = audio_tree(
        id,
        latency,
        key@,
        features,
        port,
    )->Dictionary_0[0].1->Array_0[0]->Dictionary_0;
    assert(entry_trees(entries@) =~= stream);
    single("streams", singleton(dictionary(entries)))
}

fn data(bytes: &[u8]) -> (r: Node)
    ensures
        r.tree() == Tree::Data(bytes@),
{
    Node::Data(vstd::slice::slice_to_vec(bytes))
}

/// The name of a moment in a picture's life that the receiver may report on.
pub open spec fn named(name: Seq<char>) -> Tree {
    Tree::Dictionary(seq![("name"@, Tree::Text(name))])
}

/// The request for the video stream.
pub open spec fn video_tree(id: u64, latency: LatencyMode, key: Seq<u8>, iv: Seq<u8>) -> Tree {
    streams_tree(
        Tree::Dictionary(
            seq![
                ("type"@, Tree::Unsigned(110)),
                ("streamConnectionID"@, Tree::Unsigned(id)),
                ("latencyMs"@, Tree::Unsigned(latency.lead_millis())),
                ("shk"@, Tree::Data(key)),
                ("shiv"@, Tree::Data(iv)),
                (
                    "timestampInfo"@,
                    Tree::Array(
                        seq![
                            named("SubSu"@),
                            named("BePxT"@),
                            named("AfPxT"@),
                            named("BefEn"@),
                            named("EmEnc"@),
                        ],
                    ),
                ),
            ],
        ),
    )
}

fn timestamp_info() -> (r: Node)
    ensures
        r.tree() == Tree::Array(
            seq![
                named("SubSu"@),
                named("BePxT"@),
                named("AfPxT"@),
                named("BefEn"@),
                named("EmEnc"@),
            ],
        ),
{
    let mut names: Vec<Node> = Vec::new();
    names.push(single("name", text("SubSu")));
    names.push(single("name", text("BePxT")));
    names.push(single("name", text("AfPxT")));
    names.push(single("name", text("BefEn")));
    names.push(single("name", text("EmEnc")));
    let r = Node::Array(names);
    assert(r.tree()->Array_0 =~= seq![
        named("SubSu"@),
        named("BePxT"@),
        named("AfPxT"@),
        named("BefEn"@),
        named("EmEnc"@),
    ]);
    r
}

pub fn video_request(id: u64, latency: LatencyMode, key: &[u8; 16], iv: &[u8; 16]) -> (r: Node)
    ensures
        r.tree() == video_tree(id, latency, key@, iv@),
{
    let mut entries: Vec<Entry> = Vec::new();
    put(&mut entries, "type", Node::Unsigned(110));
    put(&mut entries, "streamConnectionID", Node::Unsigned(id));
    put(&mut entries, "latencyMs", Node::Unsigned(latency.millis()));
    put(&mut entries, "shk", data(key.as_slice()));
    put(&mut entries, "shiv", data(iv.as_slice()));
    put(&mut entries, "timestampInfo", timestamp_info());
    let ghost stream = video_tree(
        id,
        latency,
        key@,
        iv@,
    )->Dictionary_0[0].1->Array_0[0]->Dictionary_0;
    assert(entry_trees(entries@) =~= stream);
    single("streams", singleton(dictionary(entries)))
}

/// The length of a key and its character `back` places before the end: enough to tell the keys
/// of one dictionary apart.
spec fn mark(key: Seq<char>, back: int) -> (nat, char) {
    (key.len(), key[key.len() - back])
}

proof fn lemma_distinct_marks(entries: Seq<(Seq<char>, Tree)>, back: int)
    requires
        forall|i: int, j: int|
            0 <= i < j < entries.len() ==> mark((#[trigger] entries[i]).0, back) != mark(
                (#[trigger] entries[j]).0,
                back,
            ),
    ensures
        distinct_keys(entries),
{
}

proof fn lemma_canonical_dictionary(entries: Seq<(Seq<char>, Tree)>)
    requires
        distinct_keys(entries),
        forall|i: int| 0 <= i < entries.len() ==> canonical((#[trigger] entries[i]).1),
    ensures
        canonical(Tree::Dictionary(entries)),
{
}

/// The request for a session is in the form in which it is read back.
pub proof fn control_request_is_canonical(
    device_id: Seq<char>,
    session_id: Seq<char>,
    peer_id: Seq<char>,
    local: Seq<char>,
)
    ensures
        canonical(control_tree(device_id, session_id, peer_tree(peer_id, local))),
{
    let peer = peer_tree(peer_id, local);
    assert(canonical(peer)) by {
        reveal_strlit("ID");
        reveal_strlit("SupportsClockPortMatchingOverride");
        reveal_strlit("DeviceType");
        reveal_strlit("Addresses");
        assert(canonical(Tree::Text(local)));
        assert(canonical(Tree::Array(seq![Tree::Text(local)])));
        assert forall|i: int| 0 <= i < 4 implies canonical(
            (#[trigger] peer->Dictionary_0[i]).1,
        ) by {}
        lemma_distinct_marks(peer->Dictionary_0, 2);
        lemma_canonical_dictionary(peer->Dictionary_0);
    }
    let request = control_tree(device_id, session_id, peer);
    reveal_strlit("deviceID");
    reveal_strlit("macAddress");
    reveal_strlit("sessionUUID");
    reveal_strlit("sourceVersion");
    reveal_strlit("isScreenMirroringSession");
    reveal_strlit("timingProtocol");
    reveal_strlit("osBuildVersion");
    reveal_strlit("model");
    reveal_strlit("name");
    reveal_strlit("timingPeerInfo");
    reveal_strlit("timingPeerList");
    reveal_strlit("updateSessionRequest");
    reveal_strlit("combinedGetInfoWithControlSetup");
    assert(canonical(Tree::Array(seq![peer])));
    assert forall|i: int| 0 <= i < 13 implies canonical(
        (#[trigger] request->Dictionary_0[i]).1,
    ) by {}
    lemma_distinct_marks(request->Dictionary_0, 4);
    lemma_canonical_dictionary(request->Dictionary_0);
}

/// The request for the audio stream is in the form in which it is read back.
pub proof fn audio_request_is_canonical(
    id: u64,
    latency: LatencyMode,
    key: Seq<u8>,
    features: u64,
    port: u16,
)
    ensures
        canonical(audio_tree(id, latency, key, features, port)),
{
    let request = audio_tree(id, latency, key, features, port);
    let stream = request->Dictionary_0[0].1->Array_0[0];
    reveal_strlit("type");
    reveal_strlit("streamConnectionID");
    reveal_strlit("ct");
    reveal_strlit("spf");
    reveal_strlit("sr");
    reveal_strlit("audioFormat");
    reveal_strlit("latencyMin");
    reveal_strlit("latencyMax");
    reveal_strlit("audioMode");
    reveal_strlit("usingScreen");
    reveal_strlit("shk");
    reveal_strlit("isMedia");
    reveal_strlit("supportsDynamicStreamID");
    reveal_strlit("streamConnections");
    reveal_strlit("controlPort");
    if has_stream_connections(features) {
        reveal_strlit("streamConnectionTypeRTP");
        reveal_strlit("streamConnectionTypeRTCP");
        let connections = stream->Dictionary_0[13].1;
        let rtp = connections->Dictionary_0[0].1;
        let rtcp = connections->Dictionary_0[1].1;
        assert(rtp->Dictionary_0[0].1 == Tree::Boolean(true));
        assert(rtcp->Dictionary_0[0].1 == Tree::Unsigned(port as u64));
        lemma_canonical_dictionary(rtp->Dictionary_0);
        lemma_canonical_dictionary(rtcp->Dictionary_0);
        assert forall|i: int| 0 <= i < 2 implies canonical(
            (#[trigger] connections->Dictionary_0[i]).1,
        ) by {}
        lemma_distinct_marks(connections->Dictionary_0, 4);
        lemma_canonical_dictionary(connections->Dictionary_0);
    }
    assert forall|i: int| 0 <= i < stream->Dictionary_0.len() implies canonical(
        (#[trigger] stream->Dictionary_0[i]).1,
    ) by {}
    lemma_distinct_marks(stream->Dictionary_0, 2);
    lemma_canonical_dictionary(stream->Dictionary_0);
    assert(canonical(Tree::Array(seq![stream])));
    lemma_canonical_dictionary(request->Dictionary_0);
}

proof fn lemma_named_canonical(name: Seq<char>)
    ensures
        canonical(named(name)),
{
    assert(canonical(Tree::Text(name)));
    lemma_canonical_dictionary(named(name)->Dictionary_0);
}

/// The request for the video stream is in the form in which it is read back.
pub proof fn video_request_is_canonical(id: u64, latency: LatencyMode, key: Seq<u8>, iv: Seq<u8>)
    ensures
        canonical(video_tree(id, latency, key, iv)),
{
    let request = video_tree(id, latency, key, iv);
    let stream = request->Dictionary_0[0].1->Array_0[0];
    reveal_strlit("type");
    reveal_strlit("streamConnectionID");
    reveal_strlit("latencyMs");
    reveal_strlit("shk");
    reveal_strlit("shiv");
    reveal_strlit("timestampInfo");
    lemma_named_canonical("SubSu"@);
    lemma_named_canonical("BePxT"@);
    lemma_named_canonical("AfPxT"@);
    lemma_named_canonical("BefEn"@);
    lemma_named_canonical("EmEnc"@);
    assert forall|i: int| 0 <= i < 6 implies canonical((#[trigger] stream->Dictionary_0[i]).1) by {
        if i == 5 {
            let names = stream->Dictionary_0[5].1->Array_0;
            assert forall|k: int| 0 <= k < names.len() implies canonical(#[trigger] names[k]) by {}
        }
    }
    lemma_distinct_marks(stream->Dictionary_0, 2);
    lemma_canonical_dictionary(stream->Dictionary_0);
    assert(canonical(Tree::Array(seq![stream])));
    lemma_canonical_dictionary(request->Dictionary_0);
}

/// A number that can name a port.
pub open spec fn is_port(value: u64) -> bool {
    0 < value <= 65535
}

/// The timeline that the receiver negotiated.
pub open spec fn timeline_in(body: Tree) -> Option<u64> {
    match lookup(body, "timingPeerInfo"@) {
        Some(info) => integer_in(info, "ClockID"@),
        None => None,
    }
}

pub fn timeline(body: &Node) -> (r: Result<u64, Failure>)
    ensures
        match timeline_in(body.tree()) {
            Some(id) => r == Ok::<u64, Failure>(id),
            None => r == Err::<u64, Failure>(Failure::NoTimeline),
        },
{
    match get(body, "timingPeerInfo") {
        Some(info) => match integer(info, "ClockID") {
            Some(id) => Ok(id),
            None => Err(Failure::NoTimeline),
        },
        None => Err(Failure::NoTimeline),
    }
}

/// The port of the receiver's event channel, where it has one.
pub open spec fn event_port_in(body: Tree) -> Option<u16> {
    match integer_in(body, "eventPort"@) {
        Some(port) => if is_port(port) {
            Some(port as u16)
        } else {
            None
        },
        None => None,
    }
}

pub fn event_port(body: &Node) -> (r: Option<u16>)
    ensures
        r == event_port_in(body.tree()),
{
    match integer(body, "eventPort") {
        Some(port) => if port > 0 && port <= 65535 {
            Some(port as u16)
        } else {
            None
        },
        None => None,
    }
}

/// Whether the receiver wants no RECORD request.
pub open spec fn skips_record(body: Tree) -> bool {
    boolean_in(body, "skipRecord"@) == Some(true)
}

pub fn skip_record(body: &Node) -> (r: bool)
    ensures
        r == skips_record(body.tree()),
{
    match boolean(body, "skipRecord") {
        Some(skip) => skip,
        None => false,
    }
}

/// The first of several streams of the given type.
pub open spec fn of_type(streams: Seq<Tree>, kind: u64) -> Option<Tree>
    decreases streams.len(),
{
    if streams.len() == 0 {
        None
    } else if integer_in(streams[0], "type"@) == Some(kind) {
        Some(streams[0])
    } else {
        of_type(streams.drop_first(), kind)
    }
}

/// The first stream of the given type in a response.
pub open spec fn stream_in(response: Tree, kind: u64) -> Option<Tree> {
    match lookup(response, "streams"@) {
        Some(Tree::Array(streams)) => of_type(streams, kind),
        _ => None,
    }
}

pub fn stream<'a>(response: &'a Node, kind: u64) -> (r: Result<&'a Node, Failure>)
    ensures
        match stream_in(response.tree(), kind) {
            Some(tree) => r matches Ok(node) && node.tree() == tree,
            None => r matches Err(failure) && failure == Failure::NoStream,
        },
{
    match get(response, "streams") {
        Some(found) => match found {
            Node::Array(streams) => {
                let ghost all = found.tree()->Array_0;
                let mut at: usize = 0;
                assert(all.skip(0) =~= all);
                while at < streams.len()
                    invariant
                        at <= streams@.len(),
                        all.len() == streams@.len(),
                        forall|i: int| 0 <= i < all.len() ==> #[trigger] all[i] == streams@[i].tree(),
                        stream_in(response.tree(), kind) == of_type(all.skip(at as int), kind),
                    decreases streams@.len() - at,
                {
                    assert(all.skip(at as int)[0] == all[at as int]);
                    assert(all.skip(at as int).drop_first() =~= all.skip(at + 1));
                    let matching = match integer(&streams[at], "type") {
                        Some(found) => found == kind,
                        None => false,
                    };
                    if matching {
                        return Ok(&streams[at]);
                    }
                    at = at + 1;
                }
                Err(Failure::NoStream)
            },
            _ => Err(Failure::NoStream),
        },
        None => Err(Failure::NoStream),
    }
}

/// The number that a stream gives for a port, in the plain or in the per-connection form.
pub open spec fn port_number(stream: Tree, old: Seq<char>, modern: Seq<char>) -> Option<u64> {
    match integer_in(stream, old) {
        Some(port) => Some(port),
        None => match lookup(stream, "streamConnections"@) {
            Some(connections) => match lookup(connections, modern) {
                Some(connection) => integer_in(connection, "streamConnectionKeyPort"@),
                None => None,
            },
            None => None,
        },
    }
}

/// The audio port that a stream gives.
pub open spec fn port_in(stream: Tree, old: Seq<char>, modern: Seq<char>) -> Result<u16, Failure> {
    match port_number(stream, old, modern) {
        None => Err(Failure::NoAudioPort),
        Some(port) => if is_port(port) {
            Ok(port as u16)
        } else {
            Err(Failure::AudioPort)
        },
    }
}

pub fn stream_port(stream: &Node, old: &str, modern: &str) -> (r: Result<u16, Failure>)
    ensures
        r == port_in(stream.tree(), old@, modern@),
{
    let port = match integer(stream, old) {
        Some(port) => Some(port),
        None => match get(stream, "streamConnections") {
            Some(connections) => match get(connections, modern) {
                Some(connection) => integer(connection, "streamConnectionKeyPort"),
                None => None,
            },
            None => None,
        },
    };
    match port {
        None => Err(Failure::NoAudioPort),
        Some(port) => if port > 0 && port <= 65535 {
            Ok(port as u16)
        } else {
            Err(Failure::AudioPort)
        },
    }
}

/// The data and control ports of the audio stream in a response.
pub open spec fn audio_ports_in(response: Tree) -> Result<(u16, u16), Failure> {
    match stream_in(response, 96) {
        None => Err(Failure::NoStream),
        Some(stream) => match port_in(stream, "dataPort"@, "streamConnectionTypeRTP"@) {
            Err(failure) => Err(failure),
            Ok(data) => match port_in(stream, "controlPort"@, "streamConnectionTypeRTCP"@) {
                Err(failure) => Err(failure),
                Ok(control) => Ok((data, control)),
            },
        },
    }
}

pub fn audio_ports(response: &Node) -> (r: Result<(u16, u16), Failure>)
    ensures
        r == audio_ports_in(response.tree()),
{
    match stream(response, 96) {
        Err(failure) => Err(failure),
        Ok(stream) => match stream_port(stream, "dataPort", "streamConnectionTypeRTP") {
            Err(failure) => Err(failure),
            Ok(data) => match stream_port(stream, "controlPort", "streamConnectionTypeRTCP") {
                Err(failure) => Err(failure),
                Ok(control) => Ok((data, control)),
            },
        },
    }
}

/// The data port of the video stream in a response.
pub open spec fn video_port_in(response: Tree) -> Result<u16, Failure> {
    match stream_in(response, 110) {
        None => Err(Failure::NoStream),
        Some(stream) => match integer_in(stream, "dataPort"@) {
            None => Err(Failure::NoVideoPort),
            Some(port) => if is_port(port) {
                Ok(port as u16)
            } else {
                Err(Failure::VideoPort)
            },
        },
    }
}

pub fn video_port(response: &Node) -> (r: Result<u16, Failure>)
    ensures
        r == video_port_in(response.tree()),
{
    match stream(response, 110) {
        Err(failure) => Err(failure),
        Ok(stream) => match integer(stream, "dataPort") {
            None => Err(Failure::NoVideoPort),
            Some(port) => if port > 0 && port <= 65535 {
                Ok(port as u16)
            } else {
                Err(Failure::VideoPort)
            },
        },
    }
}

proof fn lemma_entry_at(entries: Seq<(Seq<char>, Tree)>, at: int)
    requires
        0 <= at < entries.len(),
        distinct_keys(entries),
    ensures
        entry_for(entries, entries[at].0) == Some(entries[at].1),
    decreases entries.len(),
{
    if at > 0 {
        assert(entries[0].0 != entries[at].0);
        let rest = entries.drop_first();
        assert(rest[at - 1] == entries[at]);
        assert(distinct_keys(rest)) by {
            assert forall|i: int, j: int| 0 <= i < j < rest.len() implies (#[trigger] rest[i]).0 != (
            #[trigger] rest[j]).0 by {
                assert(entries[i + 1].0 != entries[j + 1].0);
            }
        }
        lemma_entry_at(rest, at - 1);
    }
}

/// Both streams are asked for with one and the same playback lead: in milliseconds for video, in
/// samples for audio.
pub proof fn streams_ask_for_one_lead(
    latency: LatencyMode,
    video_id: u64,
    stream_key: Seq<u8>,
    iv: Seq<u8>,
    audio_id: u64,
    audio_key: Seq<u8>,
    features: u64,
    port: u16,
)
    ensures
        stream_in(video_tree(video_id, latency, stream_key, iv), 110) matches Some(video)
            && integer_in(video, "latencyMs"@) == Some(latency.lead_millis()),
        stream_in(audio_tree(audio_id, latency, audio_key, features, port), 96) matches Some(audio)
            && integer_in(audio, "latencyMax"@) matches Some(samples) && samples * 1000
            == latency.lead_millis() * AUDIO_RATE,
{
    let video = video_tree(video_id, latency, stream_key, iv);
    video_request_is_canonical(video_id, latency, stream_key, iv);
    let video_stream = video->Dictionary_0[0].1->Array_0[0];
    assert(canonical(video->Dictionary_0[0].1));
    assert(canonical(video_stream));
    assert(video->Dictionary_0[0].1->Array_0 =~= seq![video_stream]);
    lemma_entry_at(video->Dictionary_0, 0);
    lemma_entry_at(video_stream->Dictionary_0, 0);
    lemma_entry_at(video_stream->Dictionary_0, 2);
    let audio = audio_tree(audio_id, latency, audio_key, features, port);
    audio_request_is_canonical(audio_id, latency, audio_key, features, port);
    let audio_stream = audio->Dictionary_0[0].1->Array_0[0];
    assert(canonical(audio->Dictionary_0[0].1));
    assert(canonical(audio_stream));
    lemma_entry_at(audio->Dictionary_0, 0);
    lemma_entry_at(audio_stream->Dictionary_0, 0);
    lemma_entry_at(audio_stream->Dictionary_0, 7);
}

/// The bytes under a key of a dictionary.
pub open spec fn data_in(tree: Tree, key: Seq<char>) -> Option<Seq<u8>> {
    match lookup(tree, key) {
        Some(Tree::Data(bytes)) => Some(bytes),
        _ => None,
    }
}

/// What a receiver reads from the request for the video stream.
pub proof fn video_request_reads_back(id: u64, latency: LatencyMode, key: Seq<u8>, iv: Seq<u8>)
    ensures
        stream_in(video_tree(id, latency, key, iv), 110) matches Some(stream) && {
            &&& integer_in(stream, "streamConnectionID"@) == Some(id)
            &&& integer_in(stream, "latencyMs"@) == Some(latency.lead_millis())
            &&& data_in(stream, "shk"@) == Some(key)
            &&& data_in(stream, "shiv"@) == Some(iv)
        },
{
    let video = video_tree(id, latency, key, iv);
    video_request_is_canonical(id, latency, key, iv);
    let stream = video->Dictionary_0[0].1->Array_0[0];
    assert(canonical(video->Dictionary_0[0].1));
    assert(canonical(stream));
    assert(video->Dictionary_0[0].1->Array_0 =~= seq![stream]);
    lemma_entry_at(video->Dictionary_0, 0);
    lemma_entry_at(stream->Dictionary_0, 0);
    lemma_entry_at(stream->Dictionary_0, 1);
    lemma_entry_at(stream->Dictionary_0, 2);
    lemma_entry_at(stream->Dictionary_0, 3);
    lemma_entry_at(stream->Dictionary_0, 4);
}

/// The port on which this side hears about lost packets, as the request for the audio stream names
/// it to a receiver that wants its connections described one by one, or to any other.
pub open spec fn names_control_port(stream: Tree, features: u64, port: u16) -> bool {
    if (features as nat / 0x800_0000_0000_0000) % 2 == 1 {
        match lookup(stream, "streamConnections"@) {
            None => false,
            Some(connections) => match (
                lookup(connections, "streamConnectionTypeRTCP"@),
                lookup(connections, "streamConnectionTypeRTP"@),
            ) {
                (Some(control), Some(data)) => integer_in(control, "streamConnectionKeyPort"@)
                    == Some(port as u64) && boolean_in(
                    data,
                    "streamConnectionKeyUseStreamEncryptionKey"@,
                ) == Some(true),
                _ => false,
            },
        }
    } else {
        integer_in(stream, "controlPort"@) == Some(port as u64)
    }
}

/// What a receiver reads from the request for the audio stream: 352 samples a packet, 44100 a
/// second, held back by the lead, under the key that comes along.
pub proof fn audio_request_reads_back(
    id: u64,
    latency: LatencyMode,
    key: Seq<u8>,
    features: u64,
    port: u16,
)
    ensures
        stream_in(audio_tree(id, latency, key, features, port), 96) matches Some(stream) && {
            &&& integer_in(stream, "streamConnectionID"@) == Some(id)
            &&& integer_in(stream, "spf"@) == Some(352u64)
            &&& integer_in(stream, "sr"@) == Some(44100u64)
            &&& integer_in(stream, "latencyMax"@) matches Some(samples) && samples * 1000
                == latency.lead_millis() * 44100
            &&& data_in(stream, "shk"@) == Some(key)
            &&& names_control_port(stream, features, port)
        },
{
    let audio = audio_tree(id, latency, key, features, port);
    audio_request_is_canonical(id, latency, key, features, port);
    let stream = audio->Dictionary_0[0].1->Array_0[0];
    let entries = stream->Dictionary_0;
    assert(canonical(audio->Dictionary_0[0].1));
    assert(canonical(stream));
    lemma_entry_at(audio->Dictionary_0, 0);
    lemma_entry_at(entries, 0);
    lemma_entry_at(entries, 1);
    lemma_entry_at(entries, 3);
    lemma_entry_at(entries, 4);
    lemma_entry_at(entries, 7);
    lemma_entry_at(entries, 10);
    lemma_feature_bit(features);
    if has_stream_connections(features) {
        let connections = entries[13].1;
        lemma_entry_at(entries, 13);
        assert(canonical(connections));
        lemma_entry_at(connections->Dictionary_0, 0);
        lemma_entry_at(connections->Dictionary_0, 1);
        lemma_entry_at(connections->Dictionary_0[0].1->Dictionary_0, 0);
        lemma_entry_at(connections->Dictionary_0[1].1->Dictionary_0, 0);
    } else {
        lemma_entry_at(entries, 11);
    }
}

proof fn lemma_feature_bit(features: u64)
    ensures
        has_stream_connections(features) <==> (features as nat / 0x800_0000_0000_0000) % 2 == 1,
{
    assert((features >> 59) & 1 == (features / 0x800_0000_0000_0000) % 2) by (bit_vector);
}

/// What a receiver reads from the request for a session: a screen session timed over PTP, with this
/// side as the one peer, under the identifiers that were made up for it.
pub proof fn control_request_reads_back(
    device_id: Seq<char>,
    session_id: Seq<char>,
    peer_id: Seq<char>,
    local: Seq<char>,
)
    ensures
        ({
            let request = control_tree(device_id, session_id, peer_tree(peer_id, local));
            &&& text_in(request, "deviceID"@) == Some(device_id)
            &&& text_in(request, "macAddress"@) == Some(device_id)
            &&& text_in(request, "sessionUUID"@) == Some(session_id)
            &&& text_in(request, "timingProtocol"@) == Some("PTP"@)
            &&& boolean_in(request, "isScreenMirroringSession"@) == Some(true)
            &&& lookup(request, "timingPeerInfo"@) matches Some(peer) && {
                &&& text_in(peer, "ID"@) == Some(peer_id)
                &&& lookup(peer, "Addresses"@) == Some(Tree::Array(seq![Tree::Text(local)]))
                &&& lookup(request, "timingPeerList"@) == Some(Tree::Array(seq![peer]))
            }
        }),
{
    let peer = peer_tree(peer_id, local);
    let request = control_tree(device_id, session_id, peer);
    control_request_is_canonical(device_id, session_id, peer_id, local);
    let entries = request->Dictionary_0;
    assert(entries[9].1 == peer);
    assert(canonical(peer));
    lemma_entry_at(entries, 0);
    lemma_entry_at(entries, 1);
    lemma_entry_at(entries, 2);
    lemma_entry_at(entries, 4);
    lemma_entry_at(entries, 5);
    lemma_entry_at(entries, 9);
    lemma_entry_at(entries, 10);
    lemma_entry_at(peer->Dictionary_0, 0);
    lemma_entry_at(peer->Dictionary_0, 3);
}

/// Of several streams in a response, the first one of the wanted type is taken, wherever it stands.
pub proof fn streams_are_found_by_their_type(streams: Seq<Tree>, kind: u64, at: int)
    requires
        0 <= at <= streams.len(),
        forall|i: int| 0 <= i < at ==> integer_in(#[trigger] streams[i], "type"@) != Some(kind),
        at < streams.len() ==> integer_in(streams[at], "type"@) == Some(kind),
    ensures
        stream_in(Tree::Dictionary(seq![("streams"@, Tree::Array(streams))]), kind) == (if at
            < streams.len() {
            Some(streams[at])
        } else {
            None
        }),
{
    let response = Tree::Dictionary(seq![("streams"@, Tree::Array(streams))]);
    assert(lookup(response, "streams"@) == Some(Tree::Array(streams)));
    lemma_of_type(streams, kind, at);
}

proof fn lemma_of_type(streams: Seq<Tree>, kind: u64, at: int)
    requires
        0 <= at <= streams.len(),
        forall|i: int| 0 <= i < at ==> integer_in(#[trigger] streams[i], "type"@) != Some(kind),
        at < streams.len() ==> integer_in(streams[at], "type"@) == Some(kind),
    ensures
        of_type(streams, kind) == (if at < streams.len() {
            Some(streams[at])
        } else {
            None
        }),
    decreases streams.len(),
{
    if at > 0 {
        let rest = streams.drop_first();
        assert(integer_in(streams[0], "type"@) != Some(kind));
        assert forall|i: int| 0 <= i < at - 1 implies integer_in(#[trigger] rest[i], "type"@)
            != Some(kind) by {
            assert(rest[i] == streams[i + 1]);
        }
        lemma_of_type(rest, kind, at - 1);
    }
}

} // verus!
