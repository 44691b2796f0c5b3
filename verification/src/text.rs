//! Text handling shared by the packet metadata, header and interface code.

use vstd::prelude::*;
use vstd::slice::slice_subrange;
use vstd::string::*;

verus! {

/// The characters with the Unicode `White_Space` property, which surround a trimmed field.
pub open spec fn is_space(c: char) -> bool {
    ||| '\u{9}' <= c <= '\u{d}'
    ||| c == ' '
    ||| c == '\u{85}'
    ||| c == '\u{a0}'
    ||| c == '\u{1680}'
    ||| '\u{2000}' <= c <= '\u{200a}'
    ||| c == '\u{2028}'
    ||| c == '\u{2029}'
    ||| c == '\u{202f}'
    ||| c == '\u{205f}'
    ||| c == '\u{3000}'
}

pub fn space(c: char) -> (r: bool)
    ensures
        r == is_space(c),
{
    ('\u{9}' <= c && c <= '\u{d}') || c == ' ' || c == '\u{85}' || c == '\u{a0}' || c == '\u{1680}'
        || ('\u{2000}' <= c && c <= '\u{200a}') || c == '\u{2028}' || c == '\u{2029}'
        || c == '\u{202f}' || c == '\u{205f}' || c == '\u{3000}'
}

/// `s` without its leading white space.
pub open spec fn trimmed_start(s: Seq<char>) -> Seq<char>
    decreases s.len(),
{
    if s.len() > 0 && is_space(s[0]) {
        trimmed_start(s.drop_first())
    } else {
        s
    }
}

/// `s` without its trailing white space.
pub open spec fn trimmed_end(s: Seq<char>) -> Seq<char>
    decreases s.len(),
{
    if s.len() > 0 && is_space(s.last()) {
        trimmed_end(s.drop_last())
    } else {
        s
    }
}

/// `s` without white space at either end.
pub open spec fn trimmed(s: Seq<char>) -> Seq<char> {
    trimmed_end(trimmed_start(s))
}

pub fn trim(s: &[char]) -> (r: &[char])
    ensures
        r@ == trimmed(s@),
{
    let mut start: usize = 0;
    assert(s@.subrange(0, s@.len() as int) == s@);
    while start < s.len() && space(s[start])
        invariant
            start <= s@.len(),
            trimmed_start(s@) == trimmed_start(s@.subrange(start as int, s@.len() as int)),
        decreases s@.len() - start,
    {
        assert(s@.subrange(start as int, s@.len() as int).drop_first() == s@.subrange(
            start + 1,
            s@.len() as int,
        ));
        start = start + 1;
    }
    let mut end: usize = s.len();
    while start < end && space(s[end - 1])
        invariant
            start <= end <= s@.len(),
            trimmed(s@) == trimmed_end(s@.subrange(start as int, end as int)),
        decreases end,
    {
        assert(s@.subrange(start as int, end as int).drop_last() == s@.subrange(
            start as int,
            end - 1,
        ));
        end = end - 1;
    }
    slice_subrange(s, start, end)
}

/// The first position at or after `from` that holds `c`, or the length where there is none.
pub open spec fn position_of(s: Seq<char>, c: char, from: int) -> int
    decreases s.len() - from,
{
    if from < 0 || from >= s.len() || s[from] == c {
        from
    } else {
        position_of(s, c, from + 1)
    }
}

pub fn position(s: &[char], c: char, from: usize) -> (r: usize)
    requires
        from <= s@.len(),
    ensures
        r == position_of(s@, c, from as int),
        from <= r <= s@.len(),
{
    let mut at: usize = from;
    while at < s.len() && s[at] != c
        invariant
            from <= at <= s@.len(),
            position_of(s@, c, from as int) == position_of(s@, c, at as int),
        decreases s@.len() - at,
    {
        at = at + 1;
    }
    at
}

pub proof fn lemma_position_bounds(s: Seq<char>, c: char, from: int)
    requires
        0 <= from <= s.len(),
    ensures
        from <= position_of(s, c, from) <= s.len(),
        position_of(s, c, from) < s.len() ==> s[position_of(s, c, from)] == c,
        forall|i: int| from <= i < position_of(s, c, from) ==> s[i] != c,
    decreases s.len() - from,
{
    if from < s.len() && s[from] != c {
        lemma_position_bounds(s, c, from + 1);
    }
}

/// The parts of `s` between occurrences of `separator`; there is always at least one.
pub open spec fn fields_of(s: Seq<char>, separator: char) -> Seq<Seq<char>>
    decreases s.len(),
{
    let at = position_of(s, separator, 0);
    if 0 <= at < s.len() {
        seq![s.subrange(0, at)] + fields_of(s.subrange(at + 1, s.len() as int), separator)
    } else {
        seq![s]
    }
}

/// What each of several runs of characters holds.
pub open spec fn contents(parts: Seq<&[char]>) -> Seq<Seq<char>> {
    parts.map_values(|part: &[char]| part@)
}

/// Splits `s` at every `separator`.
pub fn split<'a>(s: &'a [char], separator: char) -> (r: Vec<&'a [char]>)
    ensures
        contents(r@) == fields_of(s@, separator),
{
    let mut parts: Vec<&'a [char]> = Vec::new();
    let mut from: usize = 0;
    assert(s@.subrange(0, s@.len() as int) == s@);
    assert(contents(parts@) + fields_of(s@, separator) == fields_of(s@, separator));
    loop
        invariant
            from <= s@.len(),
            contents(parts@) + fields_of(s@.subrange(from as int, s@.len() as int), separator)
                == fields_of(s@, separator),
        decreases s@.len() - from,
    {
        let at = position(s, separator, from);
        let ghost rest = s@.subrange(from as int, s@.len() as int);
        let ghost before = contents(parts@);
        proof {
            lemma_position_shift(s@, separator, from as int, from as int);
        }
        let part = slice_subrange(s, from, at);
        parts.push(part);
        assert(contents(parts@) == before.push(part@));
        if at == s.len() {
            assert(part@ == rest);
            assert(fields_of(rest, separator) == seq![rest]);
            assert(contents(parts@) == fields_of(s@, separator));
            return parts;
        }
        proof {
            assert(part@ == rest.subrange(0, at - from));
            let after = s@.subrange(at + 1, s@.len() as int);
            assert(rest.subrange(at - from + 1, rest.len() as int) == after);
            assert(fields_of(rest, separator) == seq![part@] + fields_of(after, separator));
            assert(before.push(part@) + fields_of(after, separator) == before + (seq![part@]
                + fields_of(after, separator)));
        }
        from = at + 1;
    }
}

pub proof fn lemma_fields_not_empty(s: Seq<char>, separator: char)
    ensures
        fields_of(s, separator).len() > 0,
{
    lemma_position_bounds(s, separator, 0);
}

proof fn lemma_position_shift(s: Seq<char>, c: char, base: int, from: int)
    requires
        0 <= base <= from <= s.len(),
    ensures
        position_of(s, c, from) == base + position_of(
            s.subrange(base, s.len() as int),
            c,
            from - base,
        ),
    decreases s.len() - from,
{
    if from < s.len() && s[from] != c {
        lemma_position_shift(s, c, base, from + 1);
    }
}

/// The lines of `s`: each ends at a line feed, and a carriage return in front of that line feed
/// belongs to the line end. Nothing follows the last line feed unless text does.
pub open spec fn lines_of(s: Seq<char>) -> Seq<Seq<char>>
    decreases s.len(),
{
    let at = position_of(s, '\n', 0);
    if s.len() == 0 {
        Seq::empty()
    } else if 0 <= at < s.len() {
        seq![without_carriage_return(s.subrange(0, at))] + lines_of(
            s.subrange(at + 1, s.len() as int),
        )
    } else {
        seq![s]
    }
}

pub open spec fn without_carriage_return(s: Seq<char>) -> Seq<char> {
    if s.len() > 0 && s.last() == '\r' {
        s.drop_last()
    } else {
        s
    }
}

/// Splits `s` into its lines.
pub fn lines<'a>(s: &'a [char]) -> (r: Vec<&'a [char]>)
    ensures
        contents(r@) == lines_of(s@),
{
    let mut parts: Vec<&'a [char]> = Vec::new();
    let mut from: usize = 0;
    assert(s@.subrange(0, s@.len() as int) == s@);
    assert(contents(parts@) + lines_of(s@) == lines_of(s@));
    while from < s.len()
        invariant
            from <= s@.len(),
            contents(parts@) + lines_of(s@.subrange(from as int, s@.len() as int)) == lines_of(s@),
        decreases s@.len() - from,
    {
        let at = position(s, '\n', from);
        let ghost rest = s@.subrange(from as int, s@.len() as int);
        let ghost before = contents(parts@);
        proof {
            lemma_position_shift(s@, '\n', from as int, from as int);
        }
        if at == s.len() {
            let part = slice_subrange(s, from, at);
            parts.push(part);
            assert(contents(parts@) == before.push(part@));
            assert(part@ == rest);
            assert(lines_of(rest) == seq![rest]);
            assert(contents(parts@) == lines_of(s@));
            return parts;
        }
        let end: usize = if from < at && s[at - 1] == '\r' {
            at - 1
        } else {
            at
        };
        let part = slice_subrange(s, from, end);
        parts.push(part);
        proof {
            assert(contents(parts@) == before.push(part@));
            assert(part@ == without_carriage_return(rest.subrange(0, at - from)));
            let after = s@.subrange(at + 1, s@.len() as int);
            assert(rest.subrange(at - from + 1, rest.len() as int) == after);
            assert(lines_of(rest) == seq![part@] + lines_of(after));
            assert(before.push(part@) + lines_of(after) == before + (seq![part@] + lines_of(
                after,
            )));
        }
        from = at + 1;
    }
    assert(s@.subrange(from as int, s@.len() as int).len() == 0);
    assert(contents(parts@) == lines_of(s@));
    parts
}

/// Whether `s` begins with `prefix`.
pub open spec fn begins_with(s: Seq<char>, prefix: Seq<char>) -> bool {
    s.len() >= prefix.len() && s.take(prefix.len() as int) == prefix
}

pub fn starts_with(s: &[char], prefix: &[char]) -> (r: bool)
    ensures
        r == begins_with(s@, prefix@),
{
    if s.len() < prefix.len() {
        return false;
    }
    assert(s@.subrange(0, prefix@.len() as int) == s@.take(prefix@.len() as int));
    same_chars(slice_subrange(s, 0, prefix.len()), prefix)
}

/// What each of several texts holds.
pub open spec fn texts(list: Seq<String>) -> Seq<Seq<char>> {
    list.map_values(|text: String| text@)
}

/// What an optional text holds.
pub open spec fn text_of(text: Option<String>) -> Option<Seq<char>> {
    match text {
        None => None,
        Some(text) => Some(text@),
    }
}

/// Appends `text` to a list of words.
pub fn push_text(list: &mut Vec<String>, text: &str)
    ensures
        texts(final(list)@) == texts(old(list)@).push(text@),
{
    list.push(text.to_owned());
    assert(texts(list@) == texts(old(list)@).push(text@));
}

/// Appends `text`, already owned, to a list of words.
pub fn push_owned(list: &mut Vec<String>, text: String)
    ensures
        texts(final(list)@) == texts(old(list)@).push(text@),
{
    list.push(text);
    assert(texts(list@) == texts(old(list)@).push(text@));
}

/// All of `s` is one or more ASCII digits.
pub open spec fn is_digits(s: Seq<char>) -> bool {
    s.len() > 0 && forall|i: int| 0 <= i < s.len() ==> '0' <= #[trigger] s[i] <= '9'
}

/// The number that a run of decimal digits writes.
pub open spec fn digits_value(s: Seq<char>) -> nat
    decreases s.len(),
{
    if s.len() == 0 {
        0
    } else {
        10 * digits_value(s.drop_last()) + (s.last() as nat - '0' as nat) as nat
    }
}

/// The number that `s` writes in decimal, with an optional leading plus sign, where it is no
/// larger than `max`.
pub open spec fn unsigned_value(s: Seq<char>, max: nat) -> Option<nat> {
    let digits = if s.len() > 0 && s[0] == '+' {
        s.drop_first()
    } else {
        s
    };
    if is_digits(digits) && digits_value(digits) <= max {
        Some(digits_value(digits))
    } else {
        None
    }
}

proof fn lemma_digits_value_grows(s: Seq<char>, n: int)
    requires
        is_digits(s),
        0 <= n <= s.len(),
    ensures
        digits_value(s.take(n)) <= digits_value(s),
    decreases s.len(),
{
    if n == s.len() {
        assert(s.take(n) == s);
    } else if s.len() == 1 {
        assert(s.take(n).len() == 0);
    } else {
        lemma_digits_value_grows(s.drop_last(), n);
        assert(s.drop_last().take(n) == s.take(n));
    }
}

/// Reads an unsigned decimal number no larger than `max`.
pub fn parse_unsigned(s: &[char], max: u64) -> (r: Option<u64>)
    ensures
        r is Some <==> unsigned_value(s@, max as nat) is Some,
        r matches Some(n) ==> unsigned_value(s@, max as nat) == Some(n as nat),
{
    let from: usize = if s.len() > 0 && s[0] == '+' {
        1
    } else {
        0
    };
    let ghost digits = s@.subrange(from as int, s@.len() as int);
    assert(from == 0 ==> digits == s@);
    assert(from == 1 ==> digits == s@.drop_first());
    if from == s.len() {
        return None;
    }
    let mut at: usize = from;
    while at < s.len()
        invariant
            from <= at <= s@.len(),
            from <= 1,
            digits == s@.subrange(from as int, s@.len() as int),
            forall|i: int| 0 <= i < at - from ==> '0' <= #[trigger] digits[i] <= '9',
            unsigned_value(s@, max as nat) is Some ==> is_digits(digits),
        decreases s@.len() - at,
    {
        let c = s[at];
        assert(c == digits[at - from]);
        if c < '0' || c > '9' {
            return None;
        }
        at = at + 1;
    }
    assert(is_digits(digits));
    let mut value: u64 = 0;
    let mut next: usize = from;
    while next < s.len()
        invariant
            from <= next <= s@.len(),
            from <= 1,
            digits == s@.subrange(from as int, s@.len() as int),
            is_digits(digits),
            value == digits_value(digits.take(next - from)),
            value <= max,
            unsigned_value(s@, max as nat) == (if digits_value(digits) <= max {
                Some(digits_value(digits))
            } else {
                None
            }),
        decreases s@.len() - next,
    {
        let c = s[next];
        assert(c == digits[next - from]);
        let digit: u64 = (c as u32 - '0' as u32) as u64;
        proof {
            let longer = digits.take(next - from + 1);
            assert(longer.drop_last() == digits.take(next - from));
            assert(digits_value(longer) == 10 * value + digit);
            lemma_digits_value_grows(digits, next - from + 1);
        }
        if digit > max || value > (max - digit) / 10 {
            return None;
        }
        value = value * 10 + digit;
        next = next + 1;
    }
    assert(digits.take(next - from) == digits);
    Some(value)
}

/// The characters of `s`, in order.
pub fn chars_of(s: &str) -> (r: Vec<char>)
    ensures
        r@ == s@,
{
    let mut r: Vec<char> = Vec::new();
    for c in it: s.chars()
        invariant
            it.seq() == s@,
            r@ == s@.take(it.index() as int),
    {
        assert(s@.take(it.index() + 1) == s@.take(it.index() as int).push(c));
        r.push(c);
    }
    assert(s@.take(s@.len() as int) == s@);
    r
}

/// Whether two texts hold the same characters.
pub fn same_text(a: &str, b: &str) -> (r: bool)
    ensures
        r == (a@ == b@),
{
    same_chars(&chars_of(a), &chars_of(b))
}

pub fn same_chars(a: &[char], b: &[char]) -> (r: bool)
    ensures
        r == (a@ == b@),
{
    if a.len() != b.len() {
        return false;
    }
    let mut at: usize = 0;
    while at < a.len()
        invariant
            at <= a@.len(),
            a@.len() == b@.len(),
            forall|i: int| 0 <= i < at ==> a@[i] == b@[i],
        decreases a@.len() - at,
    {
        if a[at] != b[at] {
            return false;
        }
        at = at + 1;
    }
    assert(a@ == b@);
    true
}

/// The code point of `c`, with ASCII capitals taken to lower case.
pub open spec fn folded(c: char) -> int {
    if 'A' <= c <= 'Z' {
        c as int + 32
    } else {
        c as int
    }
}

fn fold(c: char) -> (r: u32)
    ensures
        r == folded(c),
{
    if 'A' <= c && c <= 'Z' {
        c as u32 + 32
    } else {
        c as u32
    }
}

/// Equal but for the case of ASCII letters.
pub open spec fn equal_ignoring_case(a: Seq<char>, b: Seq<char>) -> bool {
    a.len() == b.len() && forall|i: int|
        0 <= i < a.len() ==> folded(#[trigger] a[i]) == folded(b[i])
}

pub fn eq_ignore_case(a: &[char], b: &[char]) -> (r: bool)
    ensures
        r == equal_ignoring_case(a@, b@),
{
    if a.len() != b.len() {
        return false;
    }
    let mut at: usize = 0;
    while at < a.len()
        invariant
            at <= a@.len(),
            a@.len() == b@.len(),
            forall|i: int| 0 <= i < at ==> folded(#[trigger] a@[i]) == folded(b@[i]),
        decreases a@.len() - at,
    {
        if fold(a[at]) != fold(b[at]) {
            assert(folded(a@[at as int]) != folded(b@[at as int]));
            return false;
        }
        at = at + 1;
    }
    true
}

/// The digit character for a value below ten.
pub open spec fn digit_char(d: nat) -> char {
    ('0' as nat + d) as char
}

/// `n` written in decimal, without leading zeros.
pub open spec fn decimal(n: nat) -> Seq<char>
    decreases n,
{
    if n < 10 {
        seq![digit_char(n)]
    } else {
        decimal(n / 10).push(digit_char(n % 10))
    }
}

/// `n` written in decimal, with a minus sign in front of a negative number.
pub open spec fn signed_decimal(n: int) -> Seq<char> {
    if n < 0 {
        seq!['-'] + decimal((-n) as nat)
    } else {
        decimal(n as nat)
    }
}

fn digit_text(d: u64) -> (r: &'static str)
    requires
        d < 10,
    ensures
        r@ == seq![digit_char(d as nat)],
{
    proof {
        reveal_strlit("0");
        reveal_strlit("1");
        reveal_strlit("2");
        reveal_strlit("3");
        reveal_strlit("4");
        reveal_strlit("5");
        reveal_strlit("6");
        reveal_strlit("7");
        reveal_strlit("8");
        reveal_strlit("9");
    }
    match d {
        0 => "0",
        1 => "1",
        2 => "2",
        3 => "3",
        4 => "4",
        5 => "5",
        6 => "6",
        7 => "7",
        8 => "8",
        _ => "9",
    }
}

/// Appends `n` in decimal.
pub fn push_decimal(s: &mut String, n: u64)
    ensures
        final(s)@ == old(s)@ + decimal(n as nat),
    decreases n,
{
    if n >= 10 {
        push_decimal(s, n / 10);
    }
    let digit = digit_text(n % 10);
    s.append(digit);
    assert(s@ =~= old(s)@ + decimal(n as nat));
}

/// Appends `n` in decimal, with its sign where it is negative.
pub fn push_signed(s: &mut String, n: i32)
    ensures
        final(s)@ == old(s)@ + signed_decimal(n as int),
{
    if n < 0 {
        proof {
            reveal_strlit("-");
        }
        s.append("-");
        push_decimal(s, (-(n as i64)) as u64);
        assert(s@ =~= old(s)@ + signed_decimal(n as int));
    } else {
        push_decimal(s, n as u64);
    }
}

/// `n` in decimal.
pub fn decimal_text(n: u64) -> (r: String)
    ensures
        r@ == decimal(n as nat),
{
    let mut r = String::new();
    push_decimal(&mut r, n);
    assert(r@ =~= decimal(n as nat));
    r
}

/// A number written in decimal is read back unchanged.
pub proof fn decimal_reads_back(n: nat, max: nat)
    requires
        n <= max,
    ensures
        unsigned_value(decimal(n), max) == Some(n),
{
    lemma_decimal_digits(n);
    assert(decimal(n)[0] != '+');
}

proof fn lemma_decimal_digits(n: nat)
    ensures
        is_digits(decimal(n)),
        digits_value(decimal(n)) == n,
    decreases n,
{
    if n < 10 {
        assert(decimal(n).drop_last().len() == 0);
        assert(digits_value(decimal(n).drop_last()) == 0);
    } else {
        lemma_decimal_digits(n / 10);
        assert(decimal(n).drop_last() == decimal(n / 10));
        assert forall|i: int| 0 <= i < decimal(n).len() implies '0' <= #[trigger] decimal(n)[i]
            <= '9' by {
            if i < decimal(n).len() - 1 {
                assert(decimal(n)[i] == decimal(n / 10)[i]);
            }
        }
    }
}

/// All of `s` is white space.
pub open spec fn is_blank(s: Seq<char>) -> bool {
    forall|i: int| 0 <= i < s.len() ==> is_space(#[trigger] s[i])
}

proof fn lemma_trim_front(front: Seq<char>, s: Seq<char>)
    requires
        is_blank(front),
        s.len() == 0 || !is_space(s[0]),
    ensures
        trimmed_start(front + s) == s,
    decreases front.len(),
{
    let all = front + s;
    if front.len() > 0 {
        assert(all[0] == front[0]);
        assert(all.drop_first() =~= front.drop_first() + s);
        lemma_trim_front(front.drop_first(), s);
    } else {
        assert(all =~= s);
    }
}

proof fn lemma_trim_back(s: Seq<char>, back: Seq<char>)
    requires
        is_blank(back),
        s.len() == 0 || !is_space(s.last()),
    ensures
        trimmed_end(s + back) == s,
    decreases back.len(),
{
    let all = s + back;
    if back.len() > 0 {
        assert(all.last() == back.last());
        assert(all.drop_last() =~= s + back.drop_last());
        lemma_trim_back(s, back.drop_last());
    } else {
        assert(all =~= s);
    }
}

/// Trimming takes off all the white space around a text, and nothing of the text.
pub proof fn trimming_takes_off_blanks(front: Seq<char>, s: Seq<char>, back: Seq<char>)
    requires
        is_blank(front),
        is_blank(back),
        s.len() > 0,
        !is_space(s[0]),
        !is_space(s.last()),
    ensures
        trimmed(front + s + back) == s,
{
    lemma_trim_front(front, s + back);
    assert(front + s + back =~= front + (s + back));
    lemma_trim_back(s, back);
}

proof fn lemma_trim_start_keeps(s: Seq<char>, at: int)
    requires
        0 <= at < s.len(),
        !is_space(s[at]),
    ensures
        exists|i: int|
            0 <= i < trimmed_start(s).len() && !is_space(#[trigger] trimmed_start(s)[i]),
    decreases s.len(),
{
    if is_space(s[0]) {
        assert(s.drop_first()[at - 1] == s[at]);
        lemma_trim_start_keeps(s.drop_first(), at - 1);
        let left = trimmed_start(s.drop_first());
        let i = choose|i: int| 0 <= i < left.len() && !is_space(#[trigger] left[i]);
        assert(trimmed_start(s) == left);
        assert(!is_space(trimmed_start(s)[i]));
    } else {
        assert(trimmed_start(s) == s);
        assert(!is_space(trimmed_start(s)[at]));
    }
}

proof fn lemma_trim_end_keeps(s: Seq<char>, at: int)
    requires
        0 <= at < s.len(),
        !is_space(s[at]),
    ensures
        trimmed_end(s).len() > 0,
    decreases s.len(),
{
    if is_space(s.last()) {
        lemma_trim_end_keeps(s.drop_last(), at);
    }
}

/// Where a text is not all white space, something is left when it is trimmed.
pub proof fn lemma_not_blank(s: Seq<char>, at: int)
    requires
        0 <= at < s.len(),
        !is_space(s[at]),
    ensures
        trimmed(s).len() > 0,
{
    lemma_trim_start_keeps(s, at);
    let left = trimmed_start(s);
    let i = choose|i: int| 0 <= i < left.len() && !is_space(#[trigger] left[i]);
    lemma_trim_end_keeps(left, i);
}

/// Texts with a separator between any two of them.
pub open spec fn joined(parts: Seq<Seq<char>>, separator: char) -> Seq<char>
    decreases parts.len(),
{
    if parts.len() == 0 {
        Seq::empty()
    } else if parts.len() == 1 {
        parts[0]
    } else {
        parts[0] + seq![separator] + joined(parts.drop_first(), separator)
    }
}

proof fn lemma_first_position(s: Seq<char>, c: char, from: int, at: int)
    requires
        0 <= from <= at <= s.len(),
        at == s.len() || s[at] == c,
        forall|i: int| from <= i < at ==> s[i] != c,
    ensures
        position_of(s, c, from) == at,
    decreases at - from,
{
    if from < at {
        lemma_first_position(s, c, from + 1, at);
    }
}

/// Splitting joined texts gives them back, where none of them holds the separator.
pub proof fn joined_texts_split_back(parts: Seq<Seq<char>>, separator: char)
    requires
        parts.len() > 0,
        forall|i: int| 0 <= i < parts.len() ==> !(#[trigger] parts[i]).contains(separator),
    ensures
        fields_of(joined(parts, separator), separator) == parts,
    decreases parts.len(),
{
    let first = parts[0];
    let all = joined(parts, separator);
    assert forall|i: int| 0 <= i < first.len() implies first[i] != separator by {
        assert(!parts[0].contains(separator));
    }
    if parts.len() == 1 {
        lemma_first_position(all, separator, 0, first.len() as int);
        assert(seq![first] =~= parts);
    } else {
        let rest = parts.drop_first();
        assert forall|i: int| 0 <= i < rest.len() implies !(#[trigger] rest[i]).contains(
            separator,
        ) by {
            assert(rest[i] == parts[i + 1]);
        }
        joined_texts_split_back(rest, separator);
        lemma_first_position(all, separator, 0, first.len() as int);
        assert(all.subrange(0, first.len() as int) =~= first);
        assert(all.subrange(first.len() as int + 1, all.len() as int) =~= joined(rest, separator));
        assert(seq![first] + rest =~= parts);
    }
}

/// A number written in decimal has digits only, so that no white space, sign or separator stands
/// at its ends.
pub proof fn decimals_are_digits(n: nat)
    ensures
        is_digits(decimal(n)),
{
    lemma_decimal_digits(n);
}

/// A line behind which another follows is split off without its line end.
pub proof fn lines_are_split_off(line: Seq<char>, rest: Seq<char>)
    requires
        !line.contains('\n'),
    ensures
        lines_of(line + seq!['\r', '\n'] + rest) == seq![line] + lines_of(rest),
{
    let all = line + seq!['\r', '\n'] + rest;
    let at = line.len() as int + 1;
    assert forall|i: int| 0 <= i < at implies all[i] != '\n' by {
        if i < line.len() {
            assert(line.contains(line[i]));
            assert(all[i] == line[i]);
        }
    }
    assert(all[at] == '\n');
    lemma_first_position(all, '\n', 0, at);
    assert(all.subrange(0, at) =~= line.push('\r'));
    assert(line.push('\r').drop_last() =~= line);
    assert(all.subrange(at + 1, all.len() as int) =~= rest);
}

/// The last line needs no line end.
pub proof fn last_lines_need_no_end(line: Seq<char>)
    requires
        line.len() > 0,
        !line.contains('\n'),
    ensures
        lines_of(line) == seq![line],
{
    assert forall|i: int| 0 <= i < line.len() implies line[i] != '\n' by {
        assert(line.contains(line[i]));
    }
    lemma_first_position(line, '\n', 0, line.len() as int);
}

/// What stands behind the first separator of a text, and in front of it.
pub proof fn first_separator_is_found(front: Seq<char>, separator: char, back: Seq<char>)
    requires
        !front.contains(separator),
    ensures
        position_of(front + seq![separator] + back, separator, 0) == front.len(),
{
    let all = front + seq![separator] + back;
    assert forall|i: int| 0 <= i < front.len() implies all[i] != separator by {
        assert(front.contains(front[i]));
        assert(all[i] == front[i]);
    }
    lemma_first_position(all, separator, 0, front.len() as int);
}

/// Texts are equal but for case exactly where each character is the same, or the same ASCII letter
/// in the other case.
pub proof fn case_is_all_that_may_differ(a: Seq<char>, b: Seq<char>)
    ensures
        equal_ignoring_case(a, b) <==> a.len() == b.len() && forall|i: int|
            0 <= i < a.len() ==> {
                ||| #[trigger] a[i] == b[i]
                ||| 'A' <= a[i] <= 'Z' && b[i] as int == a[i] as int + 32
                ||| 'A' <= b[i] <= 'Z' && a[i] as int == b[i] as int + 32
            },
{
    if equal_ignoring_case(a, b) {
        assert forall|i: int| 0 <= i < a.len() implies {
            ||| #[trigger] a[i] == b[i]
            ||| 'A' <= a[i] <= 'Z' && b[i] as int == a[i] as int + 32
            ||| 'A' <= b[i] <= 'Z' && a[i] as int == b[i] as int + 32
        } by {
            assert(folded(a[i]) == folded(b[i]));
        }
    }
}

/// A signed number is written with a minus sign exactly where it is negative, and its size behind
/// that is read back.
pub proof fn signed_decimals_read_back(n: int, max: nat)
    requires
        -max <= n <= max,
    ensures
        n < 0 ==> signed_decimal(n)[0] == '-' && unsigned_value(signed_decimal(n).skip(1), max)
            == Some((-n) as nat),
        n >= 0 ==> unsigned_value(signed_decimal(n), max) == Some(n as nat),
{
    if n < 0 {
        decimal_reads_back((-n) as nat, max);
        assert(signed_decimal(n).skip(1) =~= decimal((-n) as nat));
    } else {
        decimal_reads_back(n as nat, max);
    }
}

} // verus!
