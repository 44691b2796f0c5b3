use spielab::clock::Clock;
use spielab::events::{
    find_headers_end, frame_size, read_headers, read_request, response, timeline_update,
    EventChannel,
};
use spielab::failure::Failure;
use spielab::property_list::{binary, dictionary, put, single, text, Entry, Node};

fn clock() -> Clock {
    Clock {
        anchor: 1,
        nanos: 2,
        timeline: 3,
    }
}

fn command(id: Node) -> Node {
    let mut entries: Vec<Entry> = vec![];
    put(&mut entries, "type", text("updateTimingPeerInfo"));
    put(&mut entries, "value", single("ClockID", id));
    dictionary(entries)
}

fn request(cseq: u32, body: &[u8]) -> Vec<u8> {
    let mut bytes = format!(
        "POST /command RTSP/1.0\r\nContent-length: {}\r\ncSEQ:  {cseq} \r\n\r\n",
        body.len()
    )
    .into_bytes();
    bytes.extend_from_slice(body);
    bytes
}

#[test]
fn frames_have_between_one_and_1024_bytes() {
    assert_eq!(frame_size(0), Err(Failure::EventFrame));
    assert_eq!(frame_size(1), Ok(17));
    assert_eq!(frame_size(1024), Ok(1040));
    assert_eq!(frame_size(1025), Err(Failure::EventFrame));
}

#[test]
fn requests_are_answered_in_order_and_move_the_clock() {
    let mut channel = EventChannel::new();
    let mut clock = clock();
    let mut bytes = request(7, &[]);
    bytes.extend(request(8, &binary(&command(Node::Signed(-9))).unwrap()));
    let served = channel.serve(&bytes, &mut clock);
    assert_eq!(
        served.responses,
        vec![
            "RTSP/1.0 200 OK\r\nCSeq: 7\r\nContent-Length: 0\r\n\r\n",
            "RTSP/1.0 200 OK\r\nCSeq: 8\r\nContent-Length: 0\r\n\r\n"
        ]
    );
    assert_eq!(served.failure, None);
    assert_eq!(clock.timeline, (-9i64) as u64);
    assert_eq!((clock.anchor, clock.nanos), (1, 2));
}

#[test]
fn pieces_give_the_same_answers_as_the_whole() {
    let mut bytes = request(1, &binary(&command(Node::Unsigned(5))).unwrap());
    bytes.extend(request(2, b"not a property list"));
    for size in [1, 3, 50] {
        let mut channel = EventChannel::new();
        let mut clock = clock();
        let mut responses = vec![];
        for piece in bytes.chunks(size) {
            let served = channel.serve(piece, &mut clock);
            assert_eq!(served.failure, None);
            responses.extend(served.responses);
        }
        assert_eq!(responses, vec![response(1), response(2)]);
        assert_eq!(clock.timeline, 5);
    }
}

#[test]
fn zero_clock_identifiers_are_ignored() {
    assert_eq!(timeline_update(&command(Node::Unsigned(0))), None);
    assert_eq!(timeline_update(&command(Node::Unsigned(4))), Some(4));
    assert_eq!(timeline_update(&command(text("4"))), None);
    assert_eq!(timeline_update(&single("type", text("other"))), None);
}

#[test]
fn incomplete_requests_wait() {
    let whole = request(1, &[1, 2, 3]);
    for length in 0..whole.len() {
        assert!(matches!(read_request(&whole[..length]), Ok(None)));
    }
    let found = read_request(&whole).ok().unwrap().unwrap();
    assert_eq!((found.cseq, found.length, found.timeline), (1, whole.len(), None));
}

#[test]
fn malformed_requests_end_the_channel() {
    let refusal = |bytes: &[u8]| read_request(bytes).err();
    assert_eq!(refusal(b"A\r\n\r\n"), Some(Failure::EventSequence));
    assert_eq!(refusal(b"A\r\nCSeq: -1\r\n\r\n"), Some(Failure::EventNumber));
    assert_eq!(
        refusal(b"A\r\nCSeq: 4294967296\r\n\r\n"),
        Some(Failure::EventNumber)
    );
    assert_eq!(
        refusal(b"A\r\nContent-Length: x\r\n\r\n"),
        Some(Failure::EventNumber)
    );
    assert_eq!(refusal(b"A\r\nX: \xff\r\n\r\n"), Some(Failure::EventText));
    assert_eq!(
        refusal(b"A\r\nContent-Length: 1032189\r\n\r\n"),
        Some(Failure::EventBody)
    );
    assert_eq!(refusal(b"A\r\nContent-Length: 1032188\r\n\r\n"), None);
    let mut long = vec![b'a'; 16385];
    long.extend_from_slice(b"\r\n\r\n");
    assert_eq!(refusal(&long), Some(Failure::EventHeaders));
    assert_eq!(refusal(&long[1..]), Some(Failure::EventSequence));
    let mut channel = EventChannel::new();
    let served = channel.serve(&vec![b'a'; 1024 * 1024 + 1], &mut clock());
    assert_eq!(served.failure, Some(Failure::EventLimit));
    assert!(served.responses.is_empty());
}

#[test]
fn answers_before_a_fault_are_still_given() {
    let mut channel = EventChannel::new();
    let mut bytes = request(3, &[]);
    bytes.extend_from_slice(b"A\r\n\r\n");
    let served = channel.serve(&bytes, &mut clock());
    assert_eq!(served.responses, vec![response(3)]);
    assert_eq!(served.failure, Some(Failure::EventSequence));
}

#[test]
fn header_lines_follow_the_request_line() {
    let headers = read_headers("CSeq: 1\r\nCSeq: 2\r\nno colon\r\nContent-Length: 4").ok().unwrap();
    assert_eq!((headers.size, headers.cseq), (4, Some(2)));
    let headers = read_headers("").ok().unwrap();
    assert_eq!((headers.size, headers.cseq), (0, None));
    assert_eq!(find_headers_end(b"ab\r\n\r\ncd"), Some(2));
    assert_eq!(find_headers_end(b"ab\r\n\rcd"), None);
}
