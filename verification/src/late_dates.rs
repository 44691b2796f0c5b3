//! Dates past the year 9999, which no date can represent, in property lists in text form.
//!
//! A list in text form is read in disguise first: its dates are strings there and its
//! dictionaries arrays, and each text ends in a mark that tells a date from a string or a key.
//! Nothing else of the list changes, so that the texts of its dates come out as they would be
//! read: comments skipped, references resolved, quoted attributes passed over.

use crate::bytes::{push_all, same_bytes};
use crate::text::digit_char;
use vstd::prelude::*;
use vstd::slice::*;

verus! {

/// A list in binary form begins with the text `bplist00`.
pub open spec fn is_binary(data: Seq<u8>) -> bool {
    data.len() >= 8 && data.take(8) == seq![98u8, 112, 108, 105, 115, 116, 48, 48]
}

fn has_binary_form(data: &[u8]) -> (r: bool)
    ensures
        r == is_binary(data@),
{
    if data.len() < 8 {
        return false;
    }
    let magic: [u8; 8] = [98, 112, 108, 105, 115, 116, 48, 48];
    assert(magic@ =~= seq![98u8, 112, 108, 105, 115, 116, 48, 48]);
    assert(data@.subrange(0, 8) =~= data@.take(8));
    same_bytes(slice_subrange(data, 0, 8), magic.as_slice())
}

/// White space between markup.
pub open spec fn is_blank(byte: u8) -> bool {
    9 <= byte <= 13 || byte == 32
}

/// Behind white space stands a printable character that begins neither markup nor a reference.
pub open spec fn text_stands_at(data: Seq<u8>, at: int) -> bool {
    &&& 0 <= at < data.len()
    &&& forall|i: int| 0 <= i < at ==> is_blank(#[trigger] data[i])
    &&& 33 <= data[at] <= 126
    &&& data[at] != 60 && data[at] != 38
}

/// The list does not begin as markup does.
pub open spec fn begins_as_text(data: Seq<u8>) -> bool {
    exists|at: int| text_stands_at(data, at)
}

fn has_text_first(data: &[u8]) -> (r: bool)
    ensures
        r == begins_as_text(data@),
{
    let mut at: usize = 0;
    while at < data.len() && ((9 <= data[at] && data[at] <= 13) || data[at] == 32)
        invariant
            at <= data@.len(),
            forall|i: int| 0 <= i < at ==> is_blank(#[trigger] data@[i]),
        decreases data@.len() - at,
    {
        at = at + 1;
    }
    let r = at < data.len() && 33 <= data[at] && data[at] <= 126 && data[at] != 60 && data[at]
        != 38;
    proof {
        if r {
            assert(text_stands_at(data@, at as int));
        } else {
            assert forall|other: int| !text_stands_at(data@, other) by {
                if text_stands_at(data@, other) && other > at {
                    assert(is_blank(data@[at as int]));
                }
            }
        }
    }
    r
}

pub open spec fn date_word() -> Seq<u8> {
    seq![100u8, 97, 116, 101]
}

pub open spec fn dict_word() -> Seq<u8> {
    seq![100u8, 105, 99, 116]
}

pub open spec fn string_word() -> Seq<u8> {
    seq![115u8, 116, 114, 105, 110, 103]
}

pub open spec fn array_word() -> Seq<u8> {
    seq![97u8, 114, 114, 97, 121]
}

pub open spec fn key_word() -> Seq<u8> {
    seq![107u8, 101, 121]
}

/// White space inside a tag.
pub open spec fn is_gap(byte: u8) -> bool {
    byte == 32 || byte == 9 || byte == 10 || byte == 13
}

/// `<`, `/` or `:` stands at `at`, and behind it a word, then white space or `>`: a tag of that
/// name, with or without a prefix, has this.
pub open spec fn named_at(data: Seq<u8>, at: int, word: Seq<u8>) -> bool {
    &&& 0 <= at
    &&& at + 1 + word.len() < data.len()
    &&& data[at] == 60 || data[at] == 47 || data[at] == 58
    &&& data.subrange(at + 1, at + 1 + word.len()) == word
    &&& is_gap(data[at + 1 + word.len()]) || data[at + 1 + word.len()] == 62
}

fn is_named(data: &[u8], at: usize, word: &[u8]) -> (r: bool)
    requires
        at < data@.len(),
    ensures
        r == named_at(data@, at as int, word@),
{
    if data.len() - at <= 1 || data.len() - at - 1 <= word.len() {
        return false;
    }
    let end = at + 1 + word.len();
    let next = data[end];
    (data[at] == 60 || data[at] == 47 || data[at] == 58) && same_bytes(
        slice_subrange(data, at + 1, end),
        word,
    ) && (next == 32 || next == 9 || next == 10 || next == 13 || next == 62)
}

/// A tag may have the name `date`.
pub open spec fn has_date(data: Seq<u8>) -> bool {
    exists|at: int| #[trigger] named_at(data, at, date_word())
}

/// The list may have a date element: it is neither in binary form nor in plain text, and holds
/// such a tag.
pub open spec fn may_hold_date(data: Seq<u8>) -> bool {
    !is_binary(data) && !begins_as_text(data) && has_date(data)
}

/// Whether the list may have a date element.
pub fn could_hold_date(data: &[u8]) -> (r: bool)
    ensures
        r == may_hold_date(data@),
{
    if has_binary_form(data) || has_text_first(data) {
        return false;
    }
    let date: [u8; 4] = [100, 97, 116, 101];
    assert(date@ =~= date_word());
    let mut at: usize = 0;
    while at < data.len()
        invariant
            at <= data@.len(),
            date@ == date_word(),
            !is_binary(data@),
            !begins_as_text(data@),
            forall|i: int| i < at ==> !#[trigger] named_at(data@, i, date_word()),
        decreases data@.len() - at,
    {
        if is_named(data, at, date.as_slice()) {
            return true;
        }
        at = at + 1;
    }
    false
}

/// The quote that is open behind a byte of a tag, where `quote` was open before it, 0 for none.
pub open spec fn quote_after(quote: u8, byte: u8) -> u8 {
    if quote == 0 && (byte == 34 || byte == 39) {
        byte
    } else if quote == byte {
        0
    } else {
        quote
    }
}

/// Where the name of a tag ends: at white space, or at `>` outside quotes.
pub open spec fn name_end(data: Seq<u8>, at: int, quote: u8) -> int
    decreases data.len() - at,
{
    if at >= data.len() || is_gap(data[at]) || (quote == 0 && data[at] == 62) {
        at
    } else {
        name_end(data, at + 1, quote_after(quote, data[at]))
    }
}

/// A closing tag stands at `at` whose name is a word, alone or behind a prefix and a colon.
pub open spec fn closes(data: Seq<u8>, at: int, word: Seq<u8>) -> bool {
    let end = name_end(data, at + 2, 0);
    let start = end - word.len();
    &&& 0 <= at
    &&& at + 2 <= start
    &&& end <= data.len()
    &&& data[at] == 60
    &&& data[at + 1] == 47
    &&& data.subrange(start, end) == word
    &&& at + 2 == start || (data[start - 1] == 58 && forall|i: int|
        at + 2 <= i < start - 1 ==> #[trigger] data[i] != 58)
}

fn find_name_end(data: &[u8], from: usize) -> (r: usize)
    requires
        from <= data@.len(),
    ensures
        r == name_end(data@, from as int, 0),
        from <= r <= data@.len(),
{
    let mut at: usize = from;
    let mut quote: u8 = 0;
    while at < data.len() && !(data[at] == 32 || data[at] == 9 || data[at] == 10 || data[at] == 13)
        && !(quote == 0 && data[at] == 62)
        invariant
            from <= at <= data@.len(),
            name_end(data@, from as int, 0) == name_end(data@, at as int, quote),
        decreases data@.len() - at,
    {
        let byte = data[at];
        if quote == 0 && (byte == 34 || byte == 39) {
            quote = byte;
        } else if quote == byte {
            quote = 0;
        }
        at = at + 1;
    }
    at
}

fn does_close(data: &[u8], at: usize, word: &[u8]) -> (r: bool)
    requires
        at < data@.len(),
    ensures
        r == closes(data@, at as int, word@),
{
    if data.len() - at < 2 || data[at] != 60 || data[at + 1] != 47 {
        proof {
            if data@.len() - at < 2 {
                assert(!closes(data@, at as int, word@));
            }
        }
        return false;
    }
    let end = find_name_end(data, at + 2);
    if end - (at + 2) < word.len() {
        return false;
    }
    let start = end - word.len();
    if !same_bytes(slice_subrange(data, start, end), word) {
        return false;
    }
    if start == at + 2 {
        return true;
    }
    if data[start - 1] != 58 {
        return false;
    }
    let mut i: usize = at + 2;
    while i < start - 1
        invariant
            at + 2 <= i <= start - 1,
            start <= data@.len(),
            start == name_end(data@, at + 2, 0) - word@.len(),
            forall|j: int| at + 2 <= j < i ==> #[trigger] data@[j] != 58,
        decreases start - i,
    {
        if data[i] == 58 {
            return false;
        }
        i = i + 1;
    }
    true
}

/// What goes ahead of a closing tag in the disguise: `1` at the end of a date, `0` at the end of a
/// string or a key.
pub open spec fn mark(data: Seq<u8>, at: int) -> Seq<u8> {
    if closes(data, at, date_word()) {
        seq![49u8]
    } else if closes(data, at, string_word()) || closes(data, at, key_word()) {
        seq![48u8]
    } else {
        Seq::empty()
    }
}

/// The list in disguise, from `from` on.
pub open spec fn disguised(data: Seq<u8>, from: int) -> Seq<u8>
    decreases data.len() - from,
{
    if from >= data.len() {
        Seq::empty()
    } else if named_at(data, from, date_word()) {
        mark(data, from) + seq![data[from]] + string_word() + disguised(data, from + 5)
    } else if named_at(data, from, dict_word()) {
        mark(data, from) + seq![data[from]] + array_word() + disguised(data, from + 5)
    } else {
        mark(data, from) + seq![data[from]] + disguised(data, from + 1)
    }
}

proof fn lemma_plain_step(data: Seq<u8>, from: int)
    requires
        0 <= from,
        disguised(data, from).len() > 0,
        ({
            let first = disguised(data, from)[0];
            first != 47 && first != 48 && first != 49 && first != 58 && first != 60
        }),
    ensures
        from < data.len(),
        data[from] == disguised(data, from)[0],
        disguised(data, from) == seq![data[from]] + disguised(data, from + 1),
{
    let all = disguised(data, from);
    let before = mark(data, from);
    if before.len() > 0 {
        assert(all[0] == before[0]);
    } else {
        assert(all[0] == data[from]);
        assert(all =~= seq![data[from]] + disguised(data, from + 1));
    }
}

proof fn lemma_date_shows(data: Seq<u8>, from: int)
    requires
        0 < from,
        data[from - 1] == 60 || data[from - 1] == 47 || data[from - 1] == 58,
        disguised(data, from).len() > 4,
        disguised(data, from).take(4) == date_word(),
        is_gap(disguised(data, from)[4]) || disguised(data, from)[4] == 62,
    ensures
        named_at(data, from - 1, date_word()),
{
    let all = disguised(data, from);
    let word = all.take(4);
    assert(all[0] == word[0] && all[1] == word[1] && all[2] == word[2] && all[3] == word[3]);
    lemma_plain_step(data, from);
    let second = disguised(data, from + 1);
    assert(second[0] == all[1] && second[1] == all[2] && second[2] == all[3] && second[3]
        == all[4]);
    lemma_plain_step(data, from + 1);
    let third = disguised(data, from + 2);
    assert(third[0] == second[1] && third[1] == second[2] && third[2] == second[3]);
    lemma_plain_step(data, from + 2);
    let fourth = disguised(data, from + 3);
    assert(fourth[0] == third[1] && fourth[1] == third[2]);
    lemma_plain_step(data, from + 3);
    let fifth = disguised(data, from + 4);
    assert(fifth[0] == fourth[1]);
    lemma_plain_step(data, from + 4);
    assert(data.subrange(from, from + 4) =~= date_word());
}

proof fn lemma_no_date_left(data: Seq<u8>, from: int)
    requires
        0 <= from,
    ensures
        !has_date(disguised(data, from)),
    decreases data.len() - from,
{
    let all = disguised(data, from);
    if from < data.len() {
        let before = mark(data, from);
        let date = named_at(data, from, date_word());
        let dict = named_at(data, from, dict_word());
        let next = if date || dict {
            from + 5
        } else {
            from + 1
        };
        let word = if date {
            string_word()
        } else if dict {
            array_word()
        } else {
            Seq::empty()
        };
        let piece = before + seq![data[from]] + word;
        let rest = disguised(data, next);
        assert(all =~= piece + rest);
        lemma_no_date_left(data, next);
        assert forall|at: int| !#[trigger] named_at(all, at, date_word()) by {
            if named_at(all, at, date_word()) {
                let shown = all.subrange(at + 1, at + 5);
                if at >= piece.len() {
                    assert(rest.subrange(at - piece.len() + 1, at - piece.len() + 5) =~= shown);
                    assert(named_at(rest, at - piece.len(), date_word()));
                } else {
                    assert(all[at] == piece[at]);
                    assert(at == before.len());
                    assert(shown[0] == all[at + 1]);
                    if word.len() > 0 {
                        assert(all[at + 1] == word[0]);
                    } else {
                        assert(rest.take(4) =~= shown);
                        assert(rest[4] == all[at + 5]);
                        lemma_date_shows(data, next);
                    }
                }
            }
        }
    } else {
        assert forall|at: int| !#[trigger] named_at(all, at, date_word()) by {}
    }
}

/// Puts a list in disguise. No tag of it has the name `date` any more.
pub fn disguise(data: &[u8]) -> (r: Vec<u8>)
    ensures
        r@ == disguised(data@, 0),
        !may_hold_date(r@),
{
    let date: [u8; 4] = [100, 97, 116, 101];
    let dict: [u8; 4] = [100, 105, 99, 116];
    let string: [u8; 6] = [115, 116, 114, 105, 110, 103];
    let array: [u8; 5] = [97, 114, 114, 97, 121];
    let key: [u8; 3] = [107, 101, 121];
    proof {
        assert(date@ =~= date_word());
        assert(dict@ =~= dict_word());
        assert(string@ =~= string_word());
        assert(array@ =~= array_word());
        assert(key@ =~= key_word());
        lemma_no_date_left(data@, 0);
    }
    let mut r: Vec<u8> = Vec::new();
    let mut at: usize = 0;
    assert(r@ + disguised(data@, 0) =~= disguised(data@, 0));
    while at < data.len()
        invariant
            at <= data@.len(),
            date@ == date_word(),
            dict@ == dict_word(),
            string@ == string_word(),
            array@ == array_word(),
            key@ == key_word(),
            r@ + disguised(data@, at as int) == disguised(data@, 0),
        decreases data@.len() - at,
    {
        let ghost before = r@;
        let ghost from = at as int;
        if does_close(data, at, date.as_slice()) {
            r.push(49);
        } else if does_close(data, at, string.as_slice()) || does_close(data, at, key.as_slice()) {
            r.push(48);
        }
        r.push(data[at]);
        assert(r@ =~= before + (mark(data@, from) + seq![data@[from]]));
        if is_named(data, at, date.as_slice()) {
            push_all(&mut r, string.as_slice());
            at = at + 5;
        } else if is_named(data, at, dict.as_slice()) {
            push_all(&mut r, array.as_slice());
            at = at + 5;
        } else {
            at = at + 1;
        }
        assert(r@ + disguised(data@, at as int) =~= before + disguised(data@, from));
    }
    assert(r@ + disguised(data@, at as int) =~= r@);
    r
}

pub open spec fn is_digit(text: Seq<char>, at: int) -> bool {
    '0' <= text[at] <= '9'
}

/// Two digits of a text as a number.
pub open spec fn pair_at(text: Seq<char>, at: int) -> int {
    (text[at] as int - 48) * 10 + (text[at + 1] as int - 48)
}

/// `hh:mm` stands at `at`, an hour of the day and a minute of the hour.
pub open spec fn is_clock_at(text: Seq<char>, at: int) -> bool {
    &&& is_digit(text, at) && is_digit(text, at + 1) && text[at + 2] == ':'
    &&& is_digit(text, at + 3) && is_digit(text, at + 4)
    &&& pair_at(text, at) < 24
    &&& pair_at(text, at + 3) < 60
}

/// The minutes of a clock at `at`.
pub open spec fn minutes_at(text: Seq<char>, at: int) -> int {
    pair_at(text, at) * 60 + pair_at(text, at + 3)
}

/// The last day that a date can name.
pub open spec fn last_day() -> Seq<char> {
    seq!['9', '9', '9', '9', '-', '1', '2', '-', '3', '1']
}

/// A date and time with an offset that falls after the year 9999: on its last day, where the
/// offset west of Greenwich takes it into the next day. Between the seconds and the offset a
/// fraction may stand.
pub open spec fn is_late(text: Seq<char>) -> bool {
    let end = text.len() - 6;
    &&& end >= 19
    &&& text.take(10) == last_day()
    &&& (text[10] as u32) < 128
    &&& is_clock_at(text, 11)
    &&& text[16] == ':'
    &&& is_digit(text, 17) && is_digit(text, 18) && pair_at(text, 17) < 60
    &&& end == 19 || (text[19] == '.' && end > 20 && forall|i: int|
        20 <= i < end ==> #[trigger] is_digit(text, i))
    &&& text[end] == '-'
    &&& is_clock_at(text, end + 1)
    &&& minutes_at(text, 11) + minutes_at(text, end + 1) >= 1440
}

fn pair_of(text: &Vec<char>, at: usize) -> (r: Option<u32>)
    requires
        at + 1 < text@.len(),
    ensures
        match r {
            Some(number) => is_digit(text@, at as int) && is_digit(text@, at + 1) && number
                == pair_at(text@, at as int) && number < 100,
            None => !(is_digit(text@, at as int) && is_digit(text@, at + 1)),
        },
{
    let size = text.len();
    assert(at + 1 < size);
    let (tens, ones) = (text[at], text[at + 1]);
    if '0' <= tens && tens <= '9' && '0' <= ones && ones <= '9' {
        Some((tens as u32 - 48) * 10 + (ones as u32 - 48))
    } else {
        None
    }
}

fn clock_of(text: &Vec<char>, at: usize) -> (r: Option<u32>)
    requires
        at + 4 < text@.len(),
    ensures
        match r {
            Some(minutes) => is_clock_at(text@, at as int) && minutes == minutes_at(
                text@,
                at as int,
            ) && minutes < 1440,
            None => !is_clock_at(text@, at as int),
        },
{
    let size = text.len();
    assert(at + 4 < size);
    match (pair_of(text, at), pair_of(text, at + 3)) {
        (Some(hours), Some(minutes)) => if hours < 24 && minutes < 60 && text[at + 2] == ':' {
            Some(hours * 60 + minutes)
        } else {
            None
        },
        _ => None,
    }
}

fn is_last_day(text: &Vec<char>) -> (r: bool)
    requires
        text@.len() >= 10,
    ensures
        r == (text@.take(10) == last_day()),
{
    let day: [char; 10] = ['9', '9', '9', '9', '-', '1', '2', '-', '3', '1'];
    assert(day@ =~= last_day());
    let ghost start = text@.take(10);
    let mut at: usize = 0;
    while at < 10
        invariant
            at <= 10,
            text@.len() >= 10,
            start == text@.take(10),
            day@ == last_day(),
            forall|i: int| 0 <= i < at ==> #[trigger] start[i] == last_day()[i],
        decreases 10 - at,
    {
        if text[at] != day[at] {
            assert(start[at as int] != last_day()[at as int]);
            return false;
        }
        at = at + 1;
    }
    assert(start =~= last_day());
    true
}

fn has_fraction(text: &Vec<char>, end: usize) -> (r: bool)
    requires
        19 <= end <= text@.len(),
    ensures
        r == (end == 19 || (text@[19] == '.' && end > 20 && forall|i: int|
            20 <= i < end ==> #[trigger] is_digit(text@, i))),
{
    if end == 19 {
        return true;
    }
    if text[19] != '.' || end == 20 {
        return false;
    }
    let mut at: usize = 20;
    while at < end
        invariant
            20 <= at <= end <= text@.len(),
            forall|i: int| 20 <= i < at ==> #[trigger] is_digit(text@, i),
        decreases end - at,
    {
        if !('0' <= text[at] && text[at] <= '9') {
            assert(!is_digit(text@, at as int));
            return false;
        }
        at = at + 1;
    }
    true
}

/// Whether a text is a moment after the year 9999.
pub fn names_late_moment(text: &Vec<char>) -> (r: bool)
    ensures
        r == is_late(text@),
{
    if text.len() < 25 {
        return false;
    }
    let end = text.len() - 6;
    if !is_last_day(text) || text[10] as u32 >= 128 || text[16] != ':' || text[end] != '-'
        || !has_fraction(text, end) {
        return false;
    }
    match (clock_of(text, 11), pair_of(text, 17), clock_of(text, end + 1)) {
        (Some(time), Some(seconds), Some(offset)) => seconds < 60 && time + offset >= 1440,
        _ => false,
    }
}

/// A number below a hundred in two digits.
pub open spec fn two_digits(n: nat) -> Seq<char> {
    seq![digit_char(n / 10), digit_char(n % 10)]
}

/// A time on the last day, in a zone so many hours and minutes west of Greenwich.
pub open spec fn last_moment(
    hour: nat,
    minute: nat,
    second: nat,
    fraction: Seq<char>,
    west_hours: nat,
    west_minutes: nat,
) -> Seq<char> {
    last_day() + seq!['T'] + two_digits(hour) + seq![':'] + two_digits(minute) + seq![':']
        + two_digits(second) + fraction + seq!['-'] + two_digits(west_hours) + seq![':']
        + two_digits(west_minutes)
}

proof fn lemma_two_digits(n: nat)
    requires
        n < 100,
    ensures
        ({
            let text = two_digits(n);
            &&& is_digit(text, 0) && is_digit(text, 1)
            &&& pair_at(text, 0) == n
        }),
{
}

/// A time on the last day is late exactly where its offset carries it past midnight.
pub proof fn late_moments_pass_midnight(
    hour: nat,
    minute: nat,
    second: nat,
    west_hours: nat,
    west_minutes: nat,
)
    requires
        hour < 24,
        minute < 60,
        second < 60,
        west_hours < 24,
        west_minutes < 60,
    ensures
        is_late(last_moment(hour, minute, second, Seq::empty(), west_hours, west_minutes)) <==> (hour
            + west_hours) * 60 + minute + west_minutes >= 24 * 60,
{
    let text = last_moment(hour, minute, second, Seq::empty(), west_hours, west_minutes);
    lemma_two_digits(hour);
    lemma_two_digits(minute);
    lemma_two_digits(second);
    lemma_two_digits(west_hours);
    lemma_two_digits(west_minutes);
    assert(text.len() == 25);
    assert(text.take(10) =~= last_day());
    assert(text[10] == 'T');
    assert(text[11] == two_digits(hour)[0] && text[12] == two_digits(hour)[1]);
    assert(text[13] == ':');
    assert(text[14] == two_digits(minute)[0] && text[15] == two_digits(minute)[1]);
    assert(text[16] == ':');
    assert(text[17] == two_digits(second)[0] && text[18] == two_digits(second)[1]);
    assert(text[19] == '-');
    assert(text[20] == two_digits(west_hours)[0] && text[21] == two_digits(west_hours)[1]);
    assert(text[22] == ':');
    assert(text[23] == two_digits(west_minutes)[0] && text[24] == two_digits(west_minutes)[1]);
}

} // verus!
