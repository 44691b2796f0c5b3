//! The receiver's event channel: requests that arrive in pieces, and their answers.

use crate::bytes::push_all;
use crate::clock::Clock;
use crate::failure::Failure;
use crate::property_list::{
    get, has_text, integer, integer_in, lookup, parse, read_tree, text_in, Node, Tree,
};
use crate::text::{
    chars_of, contents, decimal, decimal_reads_back, decimals_are_digits, eq_ignore_case,
    equal_ignoring_case, first_separator_is_found, is_blank, last_lines_need_no_end, lines,
    lines_are_split_off, lines_of, parse_unsigned, position, position_of, push_decimal, texts, trim,
    trimmed, trimming_takes_off_blanks, unsigned_value,
};
use vstd::prelude::*;
use vstd::slice::*;
use vstd::string::*;
use vstd::utf8::{decode_utf8, valid_utf8};

verus! {

/// The most bytes that may wait for the rest of a request.
pub const PENDING_LIMIT: usize = 1048576;

/// The most bytes of request headers.
pub const HEADER_LIMIT: usize = 16384;

/// The most bytes of a request body.
pub const BODY_LIMIT: usize = 1032188;

/// How many bytes follow a frame's length: its contents and their tag.
pub fn frame_size(length: u16) -> (r: Result<usize, Failure>)
    ensures
        0 < length <= 1024 ==> r == Ok::<usize, Failure>((length + 16) as usize),
        !(0 < length <= 1024) ==> r == Err::<usize, Failure>(Failure::EventFrame),
{
    if length > 0 && length <= 1024 {
        Ok(length as usize + 16)
    } else {
        Err(Failure::EventFrame)
    }
}

/// `std::str::from_utf8`: the text that the bytes encode, where they are valid UTF-8.
#[verifier::external_body]
fn utf8_text(bytes: &[u8]) -> (r: Option<&str>)
    ensures
        r is Some <==> valid_utf8(bytes@),
        r is Some ==> r->0@ == decode_utf8(bytes@),
{
    std::str::from_utf8(bytes).ok()
}

/// A blank line ends the headers here.
pub open spec fn ends_headers(s: Seq<u8>, at: int) -> bool {
    &&& 0 <= at
    &&& at + 4 <= s.len()
    &&& s[at] == 13
    &&& s[at + 1] == 10
    &&& s[at + 2] == 13
    &&& s[at + 3] == 10
}

/// Where the headers end, looking from `from` on.
pub open spec fn headers_end(s: Seq<u8>, from: int) -> Option<int>
    decreases s.len() - from,
{
    if from < 0 || from + 4 > s.len() {
        None
    } else if ends_headers(s, from) {
        Some(from)
    } else {
        headers_end(s, from + 1)
    }
}

/// Finds the end of the headers.
pub fn find_headers_end(s: &[u8]) -> (r: Option<usize>)
    ensures
        match r {
            Some(at) => headers_end(s@, 0) == Some(at as int) && ends_headers(s@, at as int),
            None => headers_end(s@, 0) is None,
        },
{
    let mut at: usize = 0;
    while at < s.len() && s.len() - at >= 4
        invariant
            at <= s@.len(),
            headers_end(s@, 0) == headers_end(s@, at as int),
        decreases s@.len() - at,
    {
        if s[at] == 13 && s[at + 1] == 10 && s[at + 2] == 13 && s[at + 3] == 10 {
            return Some(at);
        }
        at = at + 1;
    }
    None
}

/// What the headers of a request say: the size of its body and its number.
pub struct Headers {
    pub size: usize,
    pub cseq: Option<u32>,
}

/// What one header line adds to what is known.
pub open spec fn header_line(known: Headers, line: Seq<char>) -> Result<Headers, Failure> {
    let colon = position_of(line, ':', 0);
    if colon >= line.len() {
        Ok(known)
    } else {
        let key = line.take(colon);
        let value = trimmed(line.skip(colon + 1));
        if equal_ignoring_case(key, "Content-Length"@) {
            match unsigned_value(value, usize::MAX as nat) {
                Some(size) => Ok(Headers { size: size as usize, ..known }),
                None => Err(Failure::EventNumber),
            }
        } else if equal_ignoring_case(key, "CSeq"@) {
            match unsigned_value(value, u32::MAX as nat) {
                Some(cseq) => Ok(Headers { cseq: Some(cseq as u32), ..known }),
                None => Err(Failure::EventNumber),
            }
        } else {
            Ok(known)
        }
    }
}

/// What the first `count` lines say; the first of all is the request line.
pub open spec fn header_lines(all: Seq<Seq<char>>, count: nat) -> Result<Headers, Failure>
    decreases count,
{
    if count <= 1 {
        Ok(Headers { size: 0, cseq: None })
    } else {
        match header_lines(all, (count - 1) as nat) {
            Err(failure) => Err(failure),
            Ok(known) => header_line(known, all[count - 1]),
        }
    }
}

/// What a block of headers says.
pub open spec fn headers_in(text: Seq<char>) -> Result<Headers, Failure> {
    header_lines(lines_of(text), lines_of(text).len())
}

fn read_line(known: Headers, line: &[char]) -> (r: Result<Headers, Failure>)
    ensures
        r == header_line(known, line@),
{
    let colon = position(line, ':', 0);
    if colon >= line.len() {
        return Ok(known);
    }
    let key = slice_subrange(line, 0, colon);
    let value = trim(slice_subrange(line, colon + 1, line.len()));
    assert(key@ =~= line@.take(colon as int));
    assert(line@.subrange(colon + 1, line@.len() as int) =~= line@.skip(colon + 1));
    proof {
        reveal_strlit("Content-Length");
        reveal_strlit("CSeq");
    }
    if eq_ignore_case(key, &chars_of("Content-Length")) {
        match parse_unsigned(value, usize::MAX as u64) {
            Some(size) => Ok(Headers { size: size as usize, cseq: known.cseq }),
            None => Err(Failure::EventNumber),
        }
    } else if eq_ignore_case(key, &chars_of("CSeq")) {
        match parse_unsigned(value, u32::MAX as u64) {
            Some(cseq) => Ok(Headers { size: known.size, cseq: Some(cseq as u32) }),
            None => Err(Failure::EventNumber),
        }
    } else {
        Ok(known)
    }
}

proof fn lemma_header_error(all: Seq<Seq<char>>, count: nat, longer: nat)
    requires
        count <= longer,
        header_lines(all, count) is Err,
    ensures
        header_lines(all, longer) == header_lines(all, count),
    decreases longer - count,
{
    if count < longer {
        lemma_header_error(all, count, (longer - 1) as nat);
    }
}

/// Reads a block of headers.
pub fn read_headers(text: &str) -> (r: Result<Headers, Failure>)
    ensures
        r == headers_in(text@),
{
    let chars = chars_of(text);
    let list = lines(&chars);
    let ghost all = lines_of(text@);
    let mut known = Headers { size: 0, cseq: None };
    let mut at: usize = 1;
    assert(all.len() == list@.len());
    if list.len() == 0 {
        return Ok(known);
    }
    while at < list.len()
        invariant
            1 <= at <= list@.len(),
            all == lines_of(text@),
            contents(list@) == all,
            header_lines(all, at as nat) == Ok::<Headers, Failure>(known),
        decreases list@.len() - at,
    {
        assert(all[at as int] == list@[at as int]@);
        assert(header_lines(all, (at + 1) as nat) == header_line(known, all[at as int]));
        match read_line(known, list[at]) {
            Err(failure) => {
                proof {
                    lemma_header_error(all, (at + 1) as nat, all.len());
                }
                return Err(failure);
            },
            Ok(more) => {
                known = more;
            },
        }
        at = at + 1;
    }
    Ok(known)
}

/// The timeline that a command announces, if it announces one.
pub open spec fn announced_timeline(command: Tree) -> Option<u64> {
    if text_in(command, "type"@) == Some("updateTimingPeerInfo"@) {
        match lookup(command, "value"@) {
            Some(value) => match integer_in(value, "ClockID"@) {
                Some(id) => if id != 0 {
                    Some(id)
                } else {
                    None
                },
                None => None,
            },
            None => None,
        }
    } else {
        None
    }
}

/// Reads the timeline that a command announces.
pub fn timeline_update(command: &Node) -> (r: Option<u64>)
    ensures
        r == announced_timeline(command.tree()),
{
    if has_text(command, "type", "updateTimingPeerInfo") {
        match get(command, "value") {
            Some(value) => match integer(value, "ClockID") {
                Some(id) => if id != 0 {
                    Some(id)
                } else {
                    None
                },
                None => None,
            },
            None => None,
        }
    } else {
        None
    }
}

/// The timeline that a body announces: none where it is empty or no property list.
pub open spec fn body_timeline(body: Seq<u8>) -> Option<u64> {
    if body.len() == 0 {
        None
    } else {
        match read_tree(body) {
            Some(command) => announced_timeline(command),
            None => None,
        }
    }
}

/// A whole request: its number, the timeline that it announces, and its length in bytes.
pub struct Request {
    pub cseq: u32,
    pub timeline: Option<u64>,
    pub length: usize,
}

/// The request at the head of what has arrived, where it is there as a whole.
pub open spec fn request_in(s: Seq<u8>) -> Result<Option<Request>, Failure> {
    match headers_end(s, 0) {
        None => Ok(None),
        Some(end) => if end > HEADER_LIMIT {
            Err(Failure::EventHeaders)
        } else if !valid_utf8(s.take(end)) {
            Err(Failure::EventText)
        } else {
            match headers_in(decode_utf8(s.take(end))) {
                Err(failure) => Err(failure),
                Ok(headers) => if headers.size > BODY_LIMIT {
                    Err(Failure::EventBody)
                } else if s.len() < end + 4 + headers.size {
                    Ok(None)
                } else {
                    match headers.cseq {
                        None => Err(Failure::EventSequence),
                        Some(cseq) => Ok(
                            Some(
                                Request {
                                    cseq,
                                    timeline: body_timeline(
                                        s.subrange(end + 4, end + 4 + headers.size),
                                    ),
                                    length: (end + 4 + headers.size) as usize,
                                },
                            ),
                        ),
                    }
                },
            }
        },
    }
}

/// Reads the request at the head of what has arrived.
pub fn read_request(s: &[u8]) -> (r: Result<Option<Request>, Failure>)
    ensures
        r == request_in(s@),
        r matches Ok(Some(request)) ==> 4 <= request.length <= s@.len(),
{
    let end = match find_headers_end(s) {
        None => {
            return Ok(None);
        },
        Some(end) => end,
    };
    if end > HEADER_LIMIT {
        return Err(Failure::EventHeaders);
    }
    assert(s@.subrange(0, end as int) =~= s@.take(end as int));
    let text = match utf8_text(slice_subrange(s, 0, end)) {
        None => {
            return Err(Failure::EventText);
        },
        Some(text) => text,
    };
    let headers = match read_headers(text) {
        Err(failure) => {
            return Err(failure);
        },
        Ok(headers) => headers,
    };
    if headers.size > BODY_LIMIT {
        return Err(Failure::EventBody);
    }
    let length = end + 4 + headers.size;
    if s.len() < length {
        return Ok(None);
    }
    let cseq = match headers.cseq {
        None => {
            return Err(Failure::EventSequence);
        },
        Some(cseq) => cseq,
    };
    let timeline = if headers.size == 0 {
        None
    } else {
        match parse(slice_subrange(s, end + 4, length)) {
            Ok(command) => timeline_update(&command),
            Err(_) => None,
        }
    };
    Ok(Some(Request { cseq, timeline, length }))
}

proof fn lemma_headers_end_range(s: Seq<u8>, from: int)
    requires
        0 <= from,
    ensures
        headers_end(s, from) matches Some(end) ==> from <= end && end + 4 <= s.len(),
    decreases s.len() - from,
{
    if from + 4 <= s.len() && !ends_headers(s, from) {
        lemma_headers_end_range(s, from + 1);
    }
}

proof fn lemma_headers_end_extends(s: Seq<u8>, more: Seq<u8>, from: int)
    requires
        0 <= from,
        headers_end(s, from) is Some,
    ensures
        headers_end(s + more, from) == headers_end(s, from),
    decreases s.len() - from,
{
    lemma_headers_end_range(s, from);
    if !ends_headers(s, from) {
        lemma_headers_end_extends(s, more, from + 1);
    }
}

/// However a stream of requests is cut into pieces, they are read alike: a request that is there
/// as a whole, or a fault in one, stays what it is when more arrives.
pub proof fn later_bytes_change_nothing(s: Seq<u8>, more: Seq<u8>)
    requires
        request_in(s) != Ok::<Option<Request>, Failure>(None),
    ensures
        request_in(s + more) == request_in(s),
{
    lemma_headers_end_extends(s, more, 0);
    lemma_headers_end_range(s, 0);
    let end = headers_end(s, 0)->0;
    assert((s + more).take(end) =~= s.take(end));
    if let Ok(Some(request)) = request_in(s) {
        assert((s + more).subrange(end + 4, request.length as int) =~= s.subrange(
            end + 4,
            request.length as int,
        ));
    }
}

/// A whole request takes up some of what has arrived, and no more than that.
pub proof fn requests_take_up_bytes(s: Seq<u8>)
    ensures
        request_in(s) matches Ok(Some(request)) ==> 4 <= request.length <= s.len(),
{
    lemma_headers_end_range(s, 0);
}

/// The answer to the request with the given number.
pub open spec fn response_text(cseq: u32) -> Seq<char> {
    "RTSP/1.0 200 OK\r\nCSeq: "@ + decimal(cseq as nat) + "\r\nContent-Length: 0\r\n\r\n"@
}

/// Answers the request with the given number.
pub fn response(cseq: u32) -> (r: String)
    ensures
        r@ == response_text(cseq),
{
    let mut r = "RTSP/1.0 200 OK\r\nCSeq: ".to_owned();
    push_decimal(&mut r, cseq as u64);
    r.append("\r\nContent-Length: 0\r\n\r\n");
    r
}

/// What is left after serving all whole requests: the bytes that wait, the timeline, the answers
/// in order, and the fault that ends the channel, if any.
#[verifier::ext_equal]
pub struct Service {
    pub pending: Seq<u8>,
    pub timeline: u64,
    pub responses: Seq<Seq<char>>,
    pub failure: Option<Failure>,
}

/// Serves the requests at the head of `pending`, one after the other.
pub open spec fn service(pending: Seq<u8>, timeline: u64) -> Service
    decreases pending.len(),
    via service_decreases
{
    match request_in(pending) {
        Err(failure) => Service {
            pending,
            timeline,
            responses: Seq::empty(),
            failure: Some(failure),
        },
        Ok(None) => Service { pending, timeline, responses: Seq::empty(), failure: None },
        Ok(Some(request)) => {
            let rest = service(
                pending.skip(request.length as int),
                match request.timeline {
                    Some(id) => id,
                    None => timeline,
                },
            );
            Service { responses: seq![response_text(request.cseq)] + rest.responses, ..rest }
        },
    }
}

#[via_fn]
proof fn service_decreases(pending: Seq<u8>, timeline: u64) {
    requests_take_up_bytes(pending);
}

/// What becomes of decrypted bytes that arrive behind those that wait.
pub open spec fn arrival(pending: Seq<u8>, timeline: u64, bytes: Seq<u8>) -> Service {
    let all = pending + bytes;
    if all.len() > PENDING_LIMIT {
        Service {
            pending: all,
            timeline,
            responses: Seq::empty(),
            failure: Some(Failure::EventLimit),
        }
    } else {
        service(all, timeline)
    }
}

/// The answers to send, in order, and the fault that ends the channel after that, if any.
pub struct Served {
    pub responses: Vec<String>,
    pub failure: Option<Failure>,
}

/// The receiver's event channel.
pub struct EventChannel {
    pending: Vec<u8>,
}

impl EventChannel {
    /// The bytes that wait for the rest of a request.
    pub closed spec fn pending(&self) -> Seq<u8> {
        self.pending@
    }

    pub fn new() -> (r: Self)
        ensures
            r.pending() == Seq::<u8>::empty(),
    {
        EventChannel { pending: Vec::new() }
    }

    /// Takes in decrypted bytes: serves every whole request, and moves the clock to a timeline
    /// that one announces.
    pub fn serve(&mut self, bytes: &[u8], clock: &mut Clock) -> (r: Served)
        ensures
            ({
                let outcome = arrival(old(self).pending(), old(clock).timeline, bytes@);
                &&& final(self).pending() == outcome.pending
                &&& *final(clock) == (Clock { timeline: outcome.timeline, ..*old(clock) })
                &&& texts(r.responses@) == outcome.responses
                &&& r.failure == outcome.failure
            }),
    {
        push_all(&mut self.pending, bytes);
        let mut responses: Vec<String> = Vec::new();
        assert(texts(responses@) =~= Seq::empty());
        if self.pending.len() > PENDING_LIMIT {
            return Served { responses, failure: Some(Failure::EventLimit) };
        }
        let ghost outcome = arrival(old(self).pending(), old(clock).timeline, bytes@);
        let ghost other = *old(clock);
        loop
            invariant
                outcome == arrival(old(self).pending(), old(clock).timeline, bytes@),
                other == *old(clock),
                outcome == (Service {
                    responses: texts(responses@) + service(
                        self.pending@,
                        clock.timeline,
                    ).responses,
                    ..service(self.pending@, clock.timeline)
                }),
                *clock == (Clock { timeline: clock.timeline, ..other }),
            decreases self.pending@.len(),
        {
            proof {
                requests_take_up_bytes(self.pending@);
            }
            match read_request(&self.pending) {
                Err(failure) => {
                    assert(texts(responses@) =~= outcome.responses);
                    return Served { responses, failure: Some(failure) };
                },
                Ok(None) => {
                    assert(texts(responses@) =~= outcome.responses);
                    return Served { responses, failure: None };
                },
                Ok(Some(request)) => {
                    let ghost before = texts(responses@);
                    let ghost left = service(self.pending@, clock.timeline);
                    if let Some(id) = request.timeline {
                        clock.timeline = id;
                    }
                    let ghost whole = self.pending@;
                    let rest = slice_to_vec(
                        slice_subrange(&self.pending, request.length, self.pending.len()),
                    );
                    assert(rest@ =~= whole.skip(request.length as int));
                    self.pending = rest;
                    let answer = response(request.cseq);
                    let ghost said = answer@;
                    responses.push(answer);
                    assert(texts(responses@) =~= before.push(said));
                    assert(before.push(said) + service(self.pending@, clock.timeline).responses
                        =~= before + left.responses);
                },
            }
        }
    }
}

/// Bytes may arrive in any pieces: serving them one after the other gives the same answers, in
/// the same order, as serving them at once, as long as no fault or limit ends the channel.
pub proof fn pieces_are_served_alike(pending: Seq<u8>, timeline: u64, more: Seq<u8>)
    requires
        service(pending, timeline).failure is None,
    ensures
        ({
            let first = service(pending, timeline);
            let second = service(first.pending + more, first.timeline);
            service(pending + more, timeline) == (Service {
                responses: first.responses + second.responses,
                ..second
            })
        }),
    decreases pending.len(),
{
    let first = service(pending, timeline);
    let second = service(first.pending + more, first.timeline);
    match request_in(pending) {
        Err(_) => {},
        Ok(None) => {
            assert(first.responses + second.responses =~= second.responses);
        },
        Ok(Some(request)) => {
            requests_take_up_bytes(pending);
            later_bytes_change_nothing(pending, more);
            let moved = match request.timeline {
                Some(id) => id,
                None => timeline,
            };
            let rest = pending.skip(request.length as int);
            pieces_are_served_alike(rest, moved, more);
            assert((pending + more).skip(request.length as int) =~= rest + more);
            assert(seq![response_text(request.cseq)] + (service(rest, moved).responses
                + second.responses) =~= first.responses + second.responses);
        },
    }
}

/// A header line: a key, a colon, and a number with blanks around it or none.
pub open spec fn number_line(key: Seq<char>, front: Seq<char>, n: nat, back: Seq<char>) -> Seq<char> {
    key + seq![':'] + (front + decimal(n) + back)
}

/// The length of the body and the number of the request are read from their headers, whatever the
/// case of their names and the blanks around the number, and from no other.
pub proof fn header_numbers_are_read(
    known: Headers,
    key: Seq<char>,
    front: Seq<char>,
    n: nat,
    back: Seq<char>,
)
    requires
        !key.contains(':'),
        is_blank(front),
        is_blank(back),
        n <= u32::MAX,
    ensures
        header_line(known, number_line(key, front, n, back)) == (if equal_ignoring_case(
            key,
            "Content-Length"@,
        ) {
            Ok::<Headers, Failure>(Headers { size: n as usize, cseq: known.cseq })
        } else if equal_ignoring_case(key, "CSeq"@) {
            Ok(Headers { size: known.size, cseq: Some(n as u32) })
        } else {
            Ok(known)
        }),
{
    let line = number_line(key, front, n, back);
    let value = front + decimal(n) + back;
    first_separator_is_found(key, ':', value);
    decimals_are_digits(n);
    trimming_takes_off_blanks(front, decimal(n), back);
    decimal_reads_back(n, usize::MAX as nat);
    decimal_reads_back(n, u32::MAX as nat);
    assert(line.take(key.len() as int) =~= key);
    assert(line.skip(key.len() as int + 1) =~= value);
}

/// An answer is a success, carries the number of the request, and has no body.
pub proof fn answers_carry_the_number(cseq: u32)
    ensures
        headers_in(response_text(cseq)) == Ok::<Headers, Failure>(
            Headers { size: 0, cseq: Some(cseq) },
        ),
        lines_of(response_text(cseq)).len() == 4,
        lines_of(response_text(cseq))[0] == "RTSP/1.0 200 OK"@,
        lines_of(response_text(cseq))[3].len() == 0,
{
    reveal_strlit("RTSP/1.0 200 OK\r\nCSeq: ");
    reveal_strlit("RTSP/1.0 200 OK");
    reveal_strlit("\r\nContent-Length: 0\r\n\r\n");
    reveal_strlit("Content-Length");
    reveal_strlit("CSeq");
    let status = "RTSP/1.0 200 OK"@;
    let number = number_line("CSeq"@, seq![' '], cseq as nat, Seq::empty());
    let length = number_line("Content-Length"@, seq![' '], 0, Seq::empty());
    let blank = Seq::<char>::empty();
    let end = seq!['\r', '\n'];
    let text = response_text(cseq);
    decimals_are_digits(cseq as nat);
    let digits = decimal(cseq as nat);
    assert(decimal(0) =~= seq!['0']);
    assert(text =~= status + end + (number + end + (length + end + (blank + end + blank))));
    assert(!number.contains('\n')) by {
        assert forall|i: int| 0 <= i < number.len() implies number[i] != '\n' by {
            if i >= 6 {
                assert(number[i] == digits[i - 6]);
            }
        }
    }
    assert(!length.contains('\n')) by {
        assert(length =~= "Content-Length"@ + seq![':', ' ', '0']);
    }
    lines_are_split_off(blank, blank);
    lines_are_split_off(length, blank + end + blank);
    lines_are_split_off(number, length + end + (blank + end + blank));
    lines_are_split_off(status, number + end + (length + end + (blank + end + blank)));
    let all = lines_of(text);
    assert(all =~= seq![status, number, length, blank]);
    let start = Headers { size: 0, cseq: None };
    header_numbers_are_read(start, "CSeq"@, seq![' '], cseq as nat, Seq::empty());
    header_numbers_are_read(
        Headers { size: 0, cseq: Some(cseq) },
        "Content-Length"@,
        seq![' '],
        0,
        Seq::empty(),
    );
    reveal_with_fuel(header_lines, 5);
    assert("CSeq"@.len() != "Content-Length"@.len());
    assert(header_line(Headers { size: 0, cseq: Some(cseq) }, blank) == Ok::<Headers, Failure>(
        Headers { size: 0, cseq: Some(cseq) },
    ));
}

/// The headers that a request with a body begins with.
pub open spec fn request_head(
    line: Seq<char>,
    length_key: Seq<char>,
    length: nat,
    number_key: Seq<char>,
    number: nat,
) -> Seq<char> {
    line + seq!['\r', '\n'] + (number_line(length_key, seq![' '], length, Seq::empty()) + seq![
        '\r',
        '\n',
    ] + number_line(number_key, seq![' '], number, Seq::empty()))
}

proof fn lemma_no_line_feed(key: Seq<char>, n: nat)
    requires
        !key.contains('\n'),
    ensures
        !number_line(key, seq![' '], n, Seq::empty()).contains('\n'),
{
    let line = number_line(key, seq![' '], n, Seq::empty());
    decimals_are_digits(n);
    let digits = decimal(n);
    assert forall|i: int| 0 <= i < line.len() implies line[i] != '\n' by {
        if i < key.len() {
            assert(key.contains(key[i]));
            assert(line[i] == key[i]);
        } else if i >= key.len() + 2 {
            assert(line[i] == digits[i - key.len() - 2]);
        }
    }
}

/// The headers of a request tell the length of its body and its number.
pub proof fn request_heads_are_read(
    line: Seq<char>,
    length_key: Seq<char>,
    length: nat,
    number_key: Seq<char>,
    number: nat,
)
    requires
        !line.contains('\n'),
        !length_key.contains('\n') && !length_key.contains(':'),
        !number_key.contains('\n') && !number_key.contains(':'),
        equal_ignoring_case(length_key, "Content-Length"@),
        equal_ignoring_case(number_key, "CSeq"@),
        length <= u32::MAX,
        number <= u32::MAX,
    ensures
        headers_in(request_head(line, length_key, length, number_key, number)) == Ok::<
            Headers,
            Failure,
        >(Headers { size: length as usize, cseq: Some(number as u32) }),
{
    reveal_strlit("Content-Length");
    reveal_strlit("CSeq");
    let first = number_line(length_key, seq![' '], length, Seq::empty());
    let second = number_line(number_key, seq![' '], number, Seq::empty());
    lemma_no_line_feed(length_key, length);
    lemma_no_line_feed(number_key, number);
    lines_are_split_off(line, first + seq!['\r', '\n'] + second);
    lines_are_split_off(first, second);
    last_lines_need_no_end(second);
    let all = lines_of(request_head(line, length_key, length, number_key, number));
    assert(all =~= seq![line, first, second]);
    let start = Headers { size: 0, cseq: None };
    header_numbers_are_read(start, length_key, seq![' '], length, Seq::empty());
    header_numbers_are_read(
        Headers { size: length as usize, cseq: None },
        number_key,
        seq![' '],
        number,
        Seq::empty(),
    );
    reveal_with_fuel(header_lines, 4);
    assert(!equal_ignoring_case(number_key, "Content-Length"@));
}

/// The end of the headers.
pub open spec fn blank_line() -> Seq<u8> {
    seq![13u8, 10, 13, 10]
}

proof fn lemma_headers_end_at(s: Seq<u8>, from: int, at: int)
    requires
        0 <= from <= at,
        ends_headers(s, at),
        forall|i: int| from <= i < at ==> !#[trigger] ends_headers(s, i),
    ensures
        headers_end(s, from) == Some(at),
    decreases at - from,
{
    if from < at {
        assert(!ends_headers(s, from));
        lemma_headers_end_at(s, from + 1, at);
    }
}

/// A request is read whole: its number, all of its body, and no more. A body that tells of a new
/// timeline gives it, and any other gives none.
pub proof fn whole_requests_are_read(
    head: Seq<u8>,
    body: Seq<u8>,
    rest: Seq<u8>,
    cseq: u32,
)
    requires
        head.len() <= 16384,
        body.len() <= 1032188,
        forall|i: int| 0 <= i < head.len() ==> !#[trigger] ends_headers(head + blank_line(), i),
        valid_utf8(head),
        headers_in(decode_utf8(head)) == Ok::<Headers, Failure>(
            Headers { size: body.len() as usize, cseq: Some(cseq) },
        ),
    ensures
        request_in(head + blank_line() + body + rest) matches Ok(Some(request)) && {
            &&& request.cseq == cseq
            &&& request.length == head.len() + 4 + body.len()
            &&& match read_tree(body) {
                Some(command) if body.len() > 0 => match lookup(command, "value"@) {
                    Some(value) if text_in(command, "type"@) == Some("updateTimingPeerInfo"@) => {
                        match integer_in(value, "ClockID"@) {
                            Some(id) => if id == 0 {
                                request.timeline is None
                            } else {
                                request.timeline == Some(id)
                            },
                            None => request.timeline is None,
                        }
                    },
                    _ => request.timeline is None,
                },
                _ => request.timeline is None,
            }
        },
{
    let all = head + blank_line() + body + rest;
    let end = head.len() as int;
    assert(all[end] == 13 && all[end + 1] == 10 && all[end + 2] == 13 && all[end + 3] == 10);
    assert forall|i: int| 0 <= i < end implies !#[trigger] ends_headers(all, i) by {
        assert(!ends_headers(head + blank_line(), i));
        let part = head + blank_line();
        assert(all[i] == part[i] && all[i + 1] == part[i + 1] && all[i + 2] == part[i + 2]
            && all[i + 3] == part[i + 3]);
    }
    lemma_headers_end_at(all, 0, end);
    assert(all.take(end) =~= head);
    assert(all.subrange(end + 4, end + 4 + body.len()) =~= body);
}

/// Requests one behind the other.
pub open spec fn in_a_row(requests: Seq<Seq<u8>>) -> Seq<u8>
    decreases requests.len(),
{
    if requests.len() == 0 {
        Seq::empty()
    } else {
        requests[0] + in_a_row(requests.drop_first())
    }
}

/// The bytes are one whole request.
pub open spec fn is_whole(request: Seq<u8>) -> bool {
    request_in(request) matches Ok(Some(found)) && found.length == request.len()
}

/// The timeline after several requests: the one that was announced last.
pub open spec fn timeline_after(requests: Seq<Seq<u8>>, timeline: u64) -> u64
    decreases requests.len(),
{
    if requests.len() == 0 {
        timeline
    } else {
        match request_in(requests.last())->Ok_0->0.timeline {
            Some(id) => id,
            None => timeline_after(requests.drop_last(), timeline),
        }
    }
}

proof fn lemma_timeline_after_first(requests: Seq<Seq<u8>>, timeline: u64)
    requires
        requests.len() > 0,
    ensures
        timeline_after(requests, timeline) == timeline_after(
            requests.drop_first(),
            match request_in(requests[0])->Ok_0->0.timeline {
                Some(id) => id,
                None => timeline,
            },
        ),
    decreases requests.len(),
{
    reveal_with_fuel(timeline_after, 2);
    if requests.len() == 1 {
        assert(requests.drop_last().len() == 0);
        assert(requests.drop_first().len() == 0);
    } else {
        lemma_timeline_after_first(requests.drop_last(), timeline);
        assert(requests.drop_last().drop_first() =~= requests.drop_first().drop_last());
        assert(requests.drop_first().last() == requests.last());
    }
}

/// Every request is answered once, in order and under its own number, nothing is left over, and
/// the clock moves to the timeline that was announced last.
pub proof fn every_request_is_answered(requests: Seq<Seq<u8>>, timeline: u64)
    requires
        forall|i: int| 0 <= i < requests.len() ==> is_whole(#[trigger] requests[i]),
    ensures
        ({
            let served = service(in_a_row(requests), timeline);
            &&& served.failure is None
            &&& served.pending.len() == 0
            &&& served.timeline == timeline_after(requests, timeline)
            &&& served.responses.len() == requests.len()
            &&& forall|i: int|
                0 <= i < requests.len() ==> headers_in(#[trigger] served.responses[i]) == Ok::<
                    Headers,
                    Failure,
                >(Headers { size: 0, cseq: Some(request_in(requests[i])->Ok_0->0.cseq) })
        }),
    decreases requests.len(),
{
    let all = in_a_row(requests);
    let served = service(all, timeline);
    if requests.len() == 0 {
        assert(headers_end(all, 0) is None);
    } else {
        let first = requests[0];
        let rest = requests.drop_first();
        assert(is_whole(first));
        assert forall|i: int| 0 <= i < rest.len() implies is_whole(#[trigger] rest[i]) by {
            assert(is_whole(requests[i + 1]));
        }
        let found = request_in(first)->Ok_0->0;
        let moved = match found.timeline {
            Some(id) => id,
            None => timeline,
        };
        later_bytes_change_nothing(first, in_a_row(rest));
        assert(all.skip(found.length as int) =~= in_a_row(rest));
        every_request_is_answered(rest, moved);
        lemma_timeline_after_first(requests, timeline);
        answers_carry_the_number(found.cseq);
        let later = service(in_a_row(rest), moved);
        assert(served.responses =~= seq![response_text(found.cseq)] + later.responses);
        assert forall|i: int| 0 <= i < requests.len() implies headers_in(
            #[trigger] served.responses[i],
        ) == Ok::<Headers, Failure>(
            Headers { size: 0, cseq: Some(request_in(requests[i])->Ok_0->0.cseq) },
        ) by {
            if i > 0 {
                assert(served.responses[i] == later.responses[i - 1]);
                assert(rest[i - 1] == requests[i]);
            }
        }
    }
}

/// Every header line counts, however many stand before it: what it says is taken on top of what
/// they say.
pub proof fn every_header_line_counts(before: Seq<char>, after: Seq<char>, line: Seq<char>)
    requires
        lines_of(before).len() > 0,
        lines_of(after) == lines_of(before).push(line),
    ensures
        headers_in(after) == (match headers_in(before) {
            Err(failure) => Err(failure),
            Ok(known) => header_line(known, line),
        }),
{
    lemma_same_lines(lines_of(before), lines_of(after), lines_of(before).len());
}

proof fn lemma_same_lines(a: Seq<Seq<char>>, b: Seq<Seq<char>>, count: nat)
    requires
        count <= a.len(),
        count <= b.len(),
        forall|i: int| 0 <= i < count ==> a[i] == b[i],
    ensures
        header_lines(a, count) == header_lines(b, count),
    decreases count,
{
    if count > 1 {
        lemma_same_lines(a, b, (count - 1) as nat);
    }
}

/// Bytes that arrive are served unless more than 1 MiB waits then.
pub proof fn arrivals_are_served_up_to_the_limit(pending: Seq<u8>, timeline: u64, bytes: Seq<u8>)
    ensures
        ({
            let outcome = arrival(pending, timeline, bytes);
            if pending.len() + bytes.len() <= 1024 * 1024 {
                outcome == service(pending + bytes, timeline)
            } else {
                outcome.failure == Some(Failure::EventLimit) && outcome.responses.len() == 0
                    && outcome.timeline == timeline
            }
        }),
{
}

} // verus!
