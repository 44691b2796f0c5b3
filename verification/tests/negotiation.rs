use spielab::crypto::derive_key;
use spielab::failure::Failure;
use spielab::mirror::MirrorSession;
use spielab::negotiation::{
    event_keys, read_control, video_key, Negotiation, Reply, Stage, Step, Terms, Tokens,
};
use spielab::property_list::{
    binary, boolean, dictionary, get, has_text, integer, parse, put, single,
    singleton, text, Entry, Node,
};
use spielab::requests::{
    audio_ports, audio_request, control_request, event_port, skip_record, stream, stream_port,
    timeline, video_port, video_request,
};
use spielab::settings::LatencyMode;

fn terms() -> Terms {
    Terms {
        remote: "192.168.1.5".into(),
        local: Some("192.168.1.2".into()),
        secret: Some([9; 32]),
        features: 0,
        control_port: 6001,
        stream_key: [4; 16],
        stream_iv: [5; 16],
        dimensions: [6; 8],
    }
}

fn tokens() -> Tokens {
    Tokens {
        video_id: 42,
        audio_id: 77,
        peer_id: "peer".into(),
        device_id: "device".into(),
        session_id: "session".into(),
        audio_key: [8; 32],
        rtp: 1,
        ssrc: 2,
    }
}

fn reply(body: &Node) -> Reply {
    Reply {
        body: binary(body).unwrap(),
        received: Some("1000".into()),
        processing: None,
        now: 5,
    }
}

fn clock_body(extra: Vec<(&str, Node)>) -> Node {
    let mut entries: Vec<Entry> = vec![];
    put(
        &mut entries,
        "timingPeerInfo",
        single("ClockID", Node::Signed(-5)),
    );
    for (key, value) in extra {
        put(&mut entries, key, value);
    }
    dictionary(entries)
}

fn stream_body(kind: u64, fields: Vec<(&str, Node)>) -> Node {
    let mut entries: Vec<Entry> = vec![];
    put(&mut entries, "type", Node::Unsigned(kind));
    for (key, value) in fields {
        put(&mut entries, key, value);
    }
    single("streams", singleton(dictionary(entries)))
}

fn setup_of(step: Result<Step, Failure>) -> (String, Node) {
    match step {
        Ok(Step::Setup { uri, body }) => (uri, parse(&body).ok().unwrap()),
        _ => panic!("expected a SETUP request"),
    }
}

fn first_stream(request: &Node) -> &Node {
    match get(request, "streams") {
        Some(Node::Array(streams)) => &streams[0],
        _ => panic!("expected streams"),
    }
}

fn refusal<T>(result: Result<T, Failure>) -> Option<Failure> {
    result.err()
}

#[test]
fn signed_binary_plist_clock_ids_retain_all_64_bits() {
    let id = -4253718895002124280i64;
    let wire = binary(&single("ClockID", Node::Signed(id))).unwrap();
    assert_eq!(
        integer(&parse(&wire).ok().unwrap(), "ClockID"),
        Some(id as u64)
    );
}

#[test]
fn property_lists_read_back_every_kind_of_value() {
    let mut entries: Vec<Entry> = vec![];
    put(&mut entries, "text", text("Wörter"));
    put(&mut entries, "large", Node::Unsigned(u64::MAX));
    put(&mut entries, "flag", Node::Boolean(true));
    put(&mut entries, "data", Node::Data(vec![1, 2, 3]));
    put(&mut entries, "list", singleton(Node::Unsigned(7)));
    let wire = binary(&dictionary(entries)).unwrap();
    assert_eq!(&wire[..8], b"bplist00");
    let back = parse(&wire).ok().unwrap();
    assert!(has_text(&back, "text", "Wörter"));
    assert_eq!(integer(&back, "large"), Some(u64::MAX));
    assert_eq!(boolean(&back, "flag"), Some(true));
    assert!(matches!(get(&back, "data"), Some(Node::Data(data)) if *data == vec![1, 2, 3]));
    assert!(matches!(get(&back, "list"), Some(Node::Array(items)) if items.len() == 1));
    assert!(get(&back, "absent").is_none());
    assert_eq!(integer(&back, "flag"), None);
    assert_eq!(refusal(parse(b"no property list")), Some(Failure::PropertyList));
}

fn dated(date: &str) -> Vec<u8> {
    format!("<plist><dict><key>n</key><integer>7</integer><key>d</key>{date}</dict></plist>")
        .into_bytes()
}

#[test]
fn dates_within_the_last_year_are_read() {
    for date in [
        "<date>2024-05-06T07:08:09Z</date>",
        "<date>2024-05-06T07:08:09-08:00</date>",
        "<date>9999-12-31T23:59:59Z</date>",
        "<date>9999-12-31T23:59:59.999999999Z</date>",
        "<date>9999-12-31T23:59:59+00:00</date>",
        "<date>9999-12-30T23:59:59-23:59</date>",
        "<date>9999-12-31T00:00:00-08:00</date>",
        "<date>9999-12-31T22:59:59.75-01:00</date>",
        "<date>2024<!-- -->-05-06T07:08:09-08:00</date>",
        "<date>2024-05-06T07:08:09&#45;08:00</date>",
        "<date>&#50;000-01-02T03:04:05Z</date>",
        "<date><!-- -->2000-01-02T03:04:05Z</date>",
        "<date><![CDATA[9]]>2000-01-02T03:04:05-01:00</date>",
        "<date>0000-01-01T00:00:00+23:59</date>",
        "<date kind='x'>2024-05-06T07:08:09-08:00</date>",
        "<date kind='x'>2024-05-06T07:08:09Z</date><key>e</key><string>>9999-12-31T23:59:59-01:00</string>",
        "<date kind='<date>9999-12-31T23:59:59-01:00</date>'>2024-05-06T07:08:09Z</date>",
        "<p:date>2024-05-06T07:08:09-08:00</p:date>",
        "<!-- <date>9999-12-31T23:59:59-01:00</date> --><true/>",
        "<![CDATA[<date>9999-12-31T23:59:59-01:00</date>]]><true/>",
        "<?x <date>9999-12-31T23:59:59-01:00</date> ?><true/>",
        "<string>9999-12-31T23:59:59-01:00</string>",
        "<string>9999-12-31T23:59:59-01:001</string><key>e</key><date>2024-05-06T07:08:09Z</date>",
        "<string>updateTimingPeerInfo</string>",
        "<string>date>9999-12-31T23:59:59-01:00</string>",
        "<array><date>2024-05-06T07:08:09Z</date><dict/><dict></dict></array>",
    ] {
        let list = parse(&dated(date)).ok();
        assert!(list.is_some(), "{date}");
        let list = list.unwrap();
        assert_eq!(integer(&list, "n"), Some(7), "{date}");
        assert!(get(&list, "d").is_some(), "{date}");
    }
    let mut wire = b"<?xml version='1.0'?><!DOCTYPE plist PUBLIC '<date>' [<!ENTITY d '<date>'>]>".to_vec();
    wire.extend(dated("<date>2024-05-06T07:08:09Z</date>"));
    assert_eq!(integer(&parse(&wire).ok().unwrap(), "n"), Some(7));
    let plain = b"{ n = 7; d = \"<date>9999-12-31T23:59:59-01:00</date>\"; e = \"9999-12-31T23:59:59-01:001\"; }";
    let list = parse(plain).ok().unwrap();
    assert!(has_text(&list, "d", "<date>9999-12-31T23:59:59-01:00</date>"));
}

#[test]
fn dates_past_the_last_year_are_refused() {
    for date in [
        "<date>9999-12-31T23:59:59-01:00</date>",
        "<date>9999-12-31t23:59:59.5-00:01</date>",
        "<date>9999-12-31 23:00:00-01:00</date>",
        "<date>9999-12-31T00:01:00-23:59</date>",
        "<date >9999-12-31T23:59:59-01:00</date>",
        "<date>9999-12-31T23:59:59-01:00</date >",
        "<date kind='>'>9999-12-31T23:59:59-01:00</date>",
        "<p:date>9999-12-31T23:59:59-01:00</p:date>",
        "<\">\":date>9999-12-31T23:59:59-01:00</\">\":date>",
        "<date>9999-12-31T23:59:59<!-- -->-01:00</date>",
        "<date>99<!-- </date> -->99-12-31T23:59:59-01:00</date>",
        "<date><?x?>9999-12-31T23:59:59-01:00</date>",
        "<date><![CDATA[x]]>9999-12-31T23:59:59-01:00</date>",
        "<date>&#57;999-12-31T23:59:59-01:00</date>",
        "<date>9999-12-31T23:59:59&#x2d;01:00</date>",
        "<date>9999-12-31T23:59:59-01:00</date><key>d</key><true/>",
        "<date>9999-12-31T23:59:59-01:00</date><key>unclosed",
        "<array><dict><key>a</key><date>9999-12-31T23:59:59-01:00</date></dict></array>",
        "<date>9999-12-31T23:59:60-01:00</date>",
        "<date>9999-12-31T23:59:59-01:0x</date>",
        "<date>soon</date>",
    ] {
        assert_eq!(refusal(parse(&dated(date))), Some(Failure::PropertyList), "{date}");
    }
    let alone = b"<plist><date>9999-12-31T23:59:59-01:00</date></plist>";
    assert_eq!(refusal(parse(alone)), Some(Failure::PropertyList));
    let text_only = single("d", text("<date>9999-12-31T23:59:59-01:00</date>"));
    let wire = binary(&text_only).unwrap();
    assert!(has_text(
        &parse(&wire).ok().unwrap(),
        "d",
        "<date>9999-12-31T23:59:59-01:00</date>"
    ));
    assert_eq!(refusal(parse(b"")), Some(Failure::PropertyList));
}

#[test]
fn signed_integers_are_written_like_any_other() {
    for value in [0i64, 7, i64::MAX] {
        let wire = binary(&single("n", Node::Signed(value))).unwrap();
        assert_eq!(wire, binary(&single("n", Node::Unsigned(value as u64))).unwrap());
        let back = parse(&wire).ok().unwrap();
        assert!(matches!(get(&back, "n"), Some(Node::Unsigned(n)) if *n == value as u64));
    }
    let wire = binary(&single("n", Node::Signed(i64::MIN))).unwrap();
    let back = parse(&wire).ok().unwrap();
    assert!(matches!(get(&back, "n"), Some(Node::Signed(i64::MIN))));
}

#[test]
fn setup_requests_have_a_description() {
    assert_eq!(Stage::Control.description(), "Mirroring control SETUP");
    assert_eq!(Stage::Audio.description(), "Screen audio SETUP");
    assert_eq!(Stage::Video.description(), "Screen video SETUP");
}

#[test]
fn made_up_identifiers_have_their_form() {
    let made = Tokens::fresh();
    assert_eq!(made.device_id.len(), 12);
    assert!(made.device_id.bytes().all(|byte| matches!(byte, b'0'..=b'9' | b'a'..=b'f')));
    for id in [&made.peer_id, &made.session_id] {
        assert_eq!(id.len(), 36);
        for (at, byte) in id.bytes().enumerate() {
            if matches!(at, 8 | 13 | 18 | 23) {
                assert_eq!(byte, b'-');
            } else {
                assert!(matches!(byte, b'0'..=b'9' | b'a'..=b'f'));
            }
        }
    }
    assert_ne!(made.peer_id, made.session_id);
    assert!(made.video_id <= i64::MAX as u64 && made.audio_id <= i64::MAX as u64);
}

#[test]
fn whole_negotiation_runs_in_order() {
    let mut negotiation =
        Negotiation::begin(terms(), LatencyMode::Buffered, tokens()).ok().unwrap();
    assert_eq!(negotiation.stage(), Stage::Control);
    assert_eq!(negotiation.teardown(), None);
    let (uri, request) = setup_of(negotiation.first());
    assert_eq!(uri, "rtsp://192.168.1.5/77");
    assert!(has_text(&request, "deviceID", "device"));
    assert!(has_text(&request, "timingProtocol", "PTP"));
    let peer = get(&request, "timingPeerInfo").unwrap();
    assert!(has_text(peer, "ID", "peer"));

    let step = negotiation.next(&reply(&clock_body(vec![(
        "eventPort",
        Node::Unsigned(7000),
    )])));
    match step {
        Ok(Step::Events {
            port,
            read_key,
            write_key,
        }) => {
            assert_eq!(port, 7000);
            assert_eq!((read_key, write_key), event_keys(&[9; 32]));
        }
        _ => panic!("expected the event channel"),
    }
    let clock = negotiation.clock().unwrap();
    assert_eq!(
        (clock.anchor, clock.nanos, clock.timeline),
        (5, 1_000_000_000, (-5i64) as u64)
    );
    assert_eq!(
        negotiation.teardown(),
        Some("rtsp://192.168.1.5/77".to_string())
    );

    let empty = || Reply {
        body: vec![],
        received: None,
        processing: None,
        now: 0,
    };
    assert!(
        matches!(negotiation.next(&empty()), Ok(Step::Record { uri }) if uri == "rtsp://192.168.1.5/77")
    );
    let (uri, request) = setup_of(negotiation.next(&empty()));
    assert_eq!(uri, "rtsp://192.168.1.5/77");
    assert_eq!(integer(first_stream(&request), "latencyMax"), Some(22050));
    assert_eq!(integer(first_stream(&request), "controlPort"), Some(6001));

    let step = negotiation.next(&reply(&stream_body(
        96,
        vec![
            ("dataPort", Node::Unsigned(6100)),
            ("controlPort", Node::Unsigned(6101)),
        ],
    )));
    assert!(matches!(
        step,
        Ok(Step::AudioSockets {
            data: 6100,
            control: 6101
        })
    ));
    let (uri, request) = setup_of(negotiation.next(&empty()));
    assert_eq!(uri, "rtsp://192.168.1.5/42");
    assert_eq!(integer(first_stream(&request), "latencyMs"), Some(500));
    let step = negotiation.next(&reply(&stream_body(
        110,
        vec![("dataPort", Node::Unsigned(6200))],
    )));
    assert!(matches!(step, Ok(Step::VideoSocket { port: 6200 })));
    assert!(matches!(
        negotiation.next(&empty()),
        Ok(Step::Parameter { text, .. }) if text == "volume: 0.000000\r\n"
    ));
    assert!(matches!(negotiation.next(&empty()), Ok(Step::Ready)));
    assert_eq!(negotiation.stage(), Stage::Ready);
    let session = negotiation.finish();
    assert_eq!(session.frames(), 0);
}

#[test]
fn receivers_may_skip_events_and_record() {
    let mut negotiation =
        Negotiation::begin(terms(), LatencyMode::Interactive, tokens()).ok().unwrap();
    let step = negotiation.next(&reply(&clock_body(vec![
        ("skipRecord", Node::Boolean(true)),
        ("eventPort", Node::Unsigned(0)),
    ])));
    setup_of(step);
    assert_eq!(negotiation.stage(), Stage::Audio);
}

#[test]
fn refused_answers_end_the_negotiation() {
    let begin = || Negotiation::begin(terms(), LatencyMode::Interactive, tokens()).ok().unwrap();
    let mut negotiation = begin();
    let bad = Reply {
        body: vec![1, 2, 3],
        received: None,
        processing: None,
        now: 0,
    };
    assert_eq!(
        refusal(negotiation.next(&bad)),
        Some(Failure::PropertyList)
    );
    assert_eq!(negotiation.stage(), Stage::Failed);
    assert!(negotiation.teardown().is_some());
    assert_eq!(refusal(negotiation.next(&bad)), Some(Failure::SetupOver));
    let mut negotiation = begin();
    assert_eq!(
        refusal(negotiation.next(&reply(&single("other", Node::Boolean(true))))),
        Some(Failure::NoTimeline)
    );
    let mut negotiation = begin();
    let mut late = reply(&clock_body(vec![]));
    late.received = None;
    assert_eq!(
        refusal(negotiation.next(&late)),
        Some(Failure::NoTimestamp)
    );
}

#[test]
fn setup_needs_a_verified_pairing_and_an_address() {
    let mut without_secret = terms();
    without_secret.secret = None;
    assert_eq!(
        refusal(MirrorSession::setup(without_secret)),
        Some(Failure::NotVerified)
    );
    let mut without_address = terms();
    without_address.local = None;
    assert_eq!(
        refusal(MirrorSession::setup_with_latency(
            without_address,
            LatencyMode::Buffered
        )),
        Some(Failure::NoLocalAddress)
    );
    let negotiation = MirrorSession::setup(terms()).ok().unwrap();
    let (uri, request) = setup_of(negotiation.first());
    let id: u64 = uri.strip_prefix("rtsp://192.168.1.5/").unwrap().parse().unwrap();
    assert!(id <= i64::MAX as u64);
    match get(&request, "deviceID") {
        Some(Node::Text(id)) => {
            assert_eq!(id.len(), 12);
            assert!(id.bytes().all(|b| b.is_ascii_hexdigit()));
        }
        _ => panic!("expected a device identifier"),
    }
    match get(&request, "sessionUUID") {
        Some(Node::Text(id)) => {
            assert_eq!(id.len(), 36);
            assert_eq!(id.matches('-').count(), 4);
        }
        _ => panic!("expected a session identifier"),
    }
    let other = MirrorSession::setup(terms()).ok().unwrap();
    assert_ne!(setup_of(other.first()).0, uri);
}

#[test]
fn made_up_tokens_differ() {
    let (a, b) = (Tokens::fresh(), Tokens::fresh());
    assert_ne!(a.audio_key, b.audio_key);
    assert_ne!(a.peer_id, b.peer_id);
    assert_ne!((a.rtp, a.ssrc), (b.rtp, b.ssrc));
}

#[test]
fn stream_keys_depend_on_secret_and_identifier() {
    assert_eq!(
        video_key(&[7; 32], 42),
        derive_key(
            &[7; 32],
            b"DataStream-Salt42",
            b"DataStream-Output-Encryption-Key"
        )
    );
    assert_ne!(video_key(&[7; 32], 42), video_key(&[7; 32], 43));
    assert_ne!(video_key(&[7; 32], 42), video_key(&[8; 32], 42));
    let (read, write) = event_keys(&[7; 32]);
    assert_eq!(
        read,
        derive_key(&[7; 32], b"Events-Salt", b"Events-Read-Encryption-Key")
    );
    assert_ne!(read, write);
    assert_ne!(read, [7; 32]);
}

#[test]
fn modern_receivers_get_stream_connections() {
    let request = audio_request(1, LatencyMode::Interactive, &[0; 32], 1 << 59, 6001);
    let stream = first_stream(&request);
    assert_eq!(integer(stream, "controlPort"), None);
    assert_eq!(boolean(stream, "supportsDynamicStreamID"), Some(true));
    let rtcp = get(
        get(stream, "streamConnections").unwrap(),
        "streamConnectionTypeRTCP",
    )
    .unwrap();
    assert_eq!(integer(rtcp, "streamConnectionKeyPort"), Some(6001));
    let old = audio_request(1, LatencyMode::Interactive, &[0; 32], !(1 << 59), 6001);
    assert_eq!(integer(first_stream(&old), "controlPort"), Some(6001));
    assert_eq!(integer(first_stream(&old), "latencyMax"), Some(2205));
}

#[test]
fn requests_survive_the_wire() {
    for request in [
        control_request("d", "s", "p", "l"),
        audio_request(3, LatencyMode::Responsive, &[1; 32], 1 << 59, 2),
        video_request(4, LatencyMode::Responsive, &[2; 16], &[3; 16]),
    ] {
        let wire = binary(&request).unwrap();
        let back = parse(&wire).ok().unwrap();
        assert_eq!(binary(&back).unwrap(), wire);
    }
    let video = video_request(4, LatencyMode::Responsive, &[2; 16], &[3; 16]);
    let stream = first_stream(&video);
    assert_eq!(integer(stream, "type"), Some(110));
    assert_eq!(integer(stream, "latencyMs"), Some(100));
    assert!(matches!(get(stream, "timestampInfo"), Some(Node::Array(names)) if names.len() == 5));
}

#[test]
fn ports_are_read_in_both_forms_and_checked() {
    let old = stream_body(96, vec![("dataPort", Node::Unsigned(1))]);
    let found = stream(&old, 96).ok().unwrap();
    assert_eq!(
        stream_port(found, "dataPort", "streamConnectionTypeRTP"),
        Ok(1)
    );
    let modern = stream_body(
        96,
        vec![(
            "streamConnections",
            single(
                "streamConnectionTypeRTP",
                single("streamConnectionKeyPort", Node::Unsigned(65535)),
            ),
        )],
    );
    let found = stream(&modern, 96).ok().unwrap();
    assert_eq!(
        stream_port(found, "dataPort", "streamConnectionTypeRTP"),
        Ok(65535)
    );
    assert_eq!(
        stream_port(found, "controlPort", "streamConnectionTypeRTCP"),
        Err(Failure::NoAudioPort)
    );
    assert_eq!(audio_ports(&modern), Err(Failure::NoAudioPort));
    for port in [0, 65536] {
        let wrong = stream_body(96, vec![("dataPort", Node::Unsigned(port))]);
        assert_eq!(audio_ports(&wrong), Err(Failure::AudioPort));
        let wrong = stream_body(110, vec![("dataPort", Node::Unsigned(port))]);
        assert_eq!(video_port(&wrong), Err(Failure::VideoPort));
    }
    assert_eq!(
        video_port(&stream_body(110, vec![])),
        Err(Failure::NoVideoPort)
    );
    assert_eq!(video_port(&old), Err(Failure::NoStream));
    assert_eq!(audio_ports(&text("none")), Err(Failure::NoStream));
}

#[test]
fn session_answers_are_understood() {
    let body = clock_body(vec![("eventPort", Node::Unsigned(65536))]);
    assert_eq!(timeline(&body), Ok((-5i64) as u64));
    assert_eq!(event_port(&body), None);
    assert!(!skip_record(&body));
    let answer = read_control(&body, &Some("2".into()), &Some("3".into()), 9).ok().unwrap();
    assert_eq!((answer.clock.nanos, answer.clock.anchor), (5_000_000, 9));
    assert_eq!(answer.event_port, None);
    assert!(!answer.skip_record);
}
