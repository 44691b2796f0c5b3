//! HomeKit pairing and authenticated control connections.

use crate::failure::Failure;
use crate::text::{chars_of, decimal, is_digits, joined, push_decimal};
use std::path::PathBuf;
use vstd::prelude::*;
use vstd::string::*;

verus! {

/// A controller's long-term identity and the receiver key that it trusts. It holds a secret, so
/// it cannot be printed.
pub struct Credentials {
    pub controller_id: String,
    pub seed: [u8; 32],
    pub receiver_key: [u8; 32],
}

impl Credentials {
    /// The identity to keep after pairing, where the receiver gave its key.
    pub fn from_pairing(controller_id: String, seed: [u8; 32], receiver_key: Option<[u8; 32]>) -> (r:
        Result<Credentials, Failure>)
        ensures
            match receiver_key {
                None => r matches Err(error) && error == Failure::NoReceiverKey,
                Some(key) => r matches Ok(credentials) && credentials.controller_id
                    == controller_id && credentials.seed == seed && credentials.receiver_key == key,
            },
    {
        match receiver_key {
            None => Err(Failure::NoReceiverKey),
            Some(receiver_key) => Ok(Credentials { controller_id, seed, receiver_key }),
        }
    }
}

/// The directory that holds saved identities, one file for each receiver.
pub struct CredentialStore(pub PathBuf);

/// `s` without any occurrence of `c`.
pub open spec fn without(s: Seq<char>, c: char) -> Seq<char> {
    s.filter(|other: char| other != c)
}

/// A hexadecimal digit.
pub open spec fn is_hex_digit(c: char) -> bool {
    '0' <= c <= '9' || 'a' <= c <= 'f' || 'A' <= c <= 'F'
}

/// A hardware address: pairs of hexadecimal digits with colons between them.
pub open spec fn is_hardware_address(s: Seq<char>) -> bool {
    &&& s.len() % 3 == 2
    &&& forall|i: int|
        0 <= i < s.len() ==> if i % 3 == 2 {
            #[trigger] s[i] == ':'
        } else {
            is_hex_digit(s[i])
        }
}

proof fn lemma_without_pair(s: Seq<char>)
    requires
        is_hardware_address(s),
    ensures
        s.len() == 2 ==> without(s, ':') == s,
        s.len() > 2 ==> is_hardware_address(s.take(s.len() - 3)),
        s.len() > 2 ==> without(s, ':') == without(s.take(s.len() - 3), ':') + s.skip(
            s.len() - 2,
        ),
{
    reveal(Seq::filter);
    let n = s.len() as int;
    assert(s[n - 1] != ':' && s[n - 2] != ':');
    let shorter = s.drop_last();
    let pairless = shorter.drop_last();
    assert(without(s, ':') == without(shorter, ':').push(s[n - 1]));
    assert(without(shorter, ':') == without(pairless, ':').push(s[n - 2]));
    if n == 2 {
        assert(without(pairless, ':') == Seq::<char>::empty());
        assert(without(s, ':') =~= s);
    } else {
        assert(s[n - 3] == ':');
        let rest = pairless.drop_last();
        assert(without(pairless, ':') == without(rest, ':'));
        assert(rest =~= s.take(n - 3));
        assert forall|i: int| 0 <= i < rest.len() implies if i % 3 == 2 {
            #[trigger] rest[i] == ':'
        } else {
            is_hex_digit(rest[i])
        } by {
            assert(rest[i] == s[i]);
        }
        assert(without(s, ':') =~= without(rest, ':') + s.skip(n - 2));
    }
}

/// An address of `n` pairs keeps its `2n` digits.
proof fn lemma_without_len(s: Seq<char>)
    requires
        is_hardware_address(s),
    ensures
        3 * without(s, ':').len() == 2 * s.len() + 2,
    decreases s.len(),
{
    lemma_without_pair(s);
    if s.len() > 2 {
        lemma_without_len(s.take(s.len() - 3));
    }
}

proof fn lemma_digits_tell_addresses(a: Seq<char>, b: Seq<char>)
    requires
        is_hardware_address(a),
        is_hardware_address(b),
        without(a, ':') == without(b, ':'),
    ensures
        a == b,
    decreases a.len(),
{
    lemma_without_pair(a);
    lemma_without_pair(b);
    lemma_without_len(a);
    lemma_without_len(b);
    let n = a.len() as int;
    assert(b.len() == n);
    if n > 2 {
        let (head_a, head_b) = (without(a.take(n - 3), ':'), without(b.take(n - 3), ':'));
        let (pair_a, pair_b) = (a.skip(n - 2), b.skip(n - 2));
        assert(head_a.len() == head_b.len());
        assert((head_a + pair_a).take(head_a.len() as int) =~= head_a);
        assert((head_b + pair_b).take(head_b.len() as int) =~= head_b);
        assert((head_a + pair_a).skip(head_a.len() as int) =~= pair_a);
        assert((head_b + pair_b).skip(head_b.len() as int) =~= pair_b);
        lemma_digits_tell_addresses(a.take(n - 3), b.take(n - 3));
        assert(a[n - 3] == ':' && b[n - 3] == ':');
        assert(a =~= a.take(n - 3).push(':') + pair_a);
        assert(b =~= b.take(n - 3).push(':') + pair_b);
    }
}

/// Receivers with different hardware addresses have different files.
pub proof fn file_names_are_distinct(a: Seq<char>, b: Seq<char>)
    requires
        is_hardware_address(a),
        is_hardware_address(b),
        a != b,
    ensures
        CredentialStore::name_for(a) != CredentialStore::name_for(b),
{
    let (name_a, name_b) = (CredentialStore::name_for(a), CredentialStore::name_for(b));
    if name_a == name_b {
        let (digits_a, digits_b) = (without(a, ':'), without(b, ':'));
        assert(name_a.len() == digits_a.len() + ".json"@.len());
        assert(name_b.len() == digits_b.len() + ".json"@.len());
        assert(name_a.take(digits_a.len() as int) =~= digits_a);
        assert(name_b.take(digits_b.len() as int) =~= digits_b);
        lemma_digits_tell_addresses(a, b);
    }
}

impl CredentialStore {
    /// The file for a hardware address: its digits without the colons.
    pub open spec fn name_for(address: Seq<char>) -> Seq<char> {
        without(address, ':') + ".json"@
    }

    /// The name of the file for the receiver with the given hardware address.
    pub fn file_name(address: &str) -> (r: String)
        ensures
            r@ == Self::name_for(address@),
    {
        let chars = chars_of(address);
        let mut name = String::new();
        let mut at: usize = 0;
        proof {
            reveal(Seq::filter);
        }
        while at < chars.len()
            invariant
                at <= chars@.len(),
                chars@ == address@,
                name@ == without(address@.take(at as int), ':'),
            decreases chars@.len() - at,
        {
            proof {
                reveal(Seq::filter);
                let longer = address@.take(at + 1);
                assert(longer.drop_last() == address@.take(at as int));
                assert(longer.last() == address@[at as int]);
                assert(without(address@.take(at as int), ':') + seq![longer.last()] == without(
                    address@.take(at as int),
                    ':',
                ).push(longer.last()));
                assert(address@.subrange(at as int, at + 1) == seq![longer.last()]);
            }
            if chars[at] != ':' {
                name.append(address.substring_char(at, at + 1));
            }
            at = at + 1;
        }
        assert(address@.take(at as int) == address@);
        name.append(".json");
        name
    }

    /// The extension of the file that a new identity is written to before it takes the place of
    /// the old one.
    pub fn temporary_extension(unique: &str) -> (r: String)
        ensures
            r@ == unique@ + ".tmp"@,
    {
        let mut extension = unique.to_owned();
        extension.append(".tmp");
        extension
    }
}

/// Accepts exactly four ASCII digits.
pub fn validate_pin(pin: &str) -> (r: Result<(), Failure>)
    ensures
        r == (if pin@.len() == 4 && is_digits(pin@) {
            Ok::<(), Failure>(())
        } else {
            Err(Failure::Pin)
        }),
{
    let chars = chars_of(pin);
    if chars.len() != 4 {
        return Err(Failure::Pin);
    }
    let mut at: usize = 0;
    while at < 4
        invariant
            at <= 4,
            chars@ == pin@,
            pin@.len() == 4,
            forall|i: int| 0 <= i < at ==> '0' <= #[trigger] pin@[i] <= '9',
        decreases 4 - at,
    {
        if chars[at] < '0' || chars[at] > '9' {
            assert(!('0' <= pin@[at as int] <= '9'));
            return Err(Failure::Pin);
        }
        at = at + 1;
    }
    Ok(())
}

/// Whether a response status is one of success.
pub open spec fn is_success(status: u16) -> bool {
    200 <= status < 300
}

/// Refuses a response whose status is not one of success.
pub fn check_status(status: u16) -> (r: Result<(), Failure>)
    ensures
        r == (if is_success(status) {
            Ok::<(), Failure>(())
        } else {
            Err(Failure::Rejected)
        }),
{
    if 200 <= status && status < 300 {
        Ok(())
    } else {
        Err(Failure::Rejected)
    }
}

/// What is said of a request that the receiver refused.
pub open spec fn rejection_text(endpoint: Seq<char>, status: u16) -> Seq<char> {
    "Receiver rejected "@ + endpoint + ": status "@ + decimal(status as nat)
}

/// Says which request the receiver refused, and how.
pub fn rejection(endpoint: &str, status: u16) -> (r: String)
    ensures
        r@ == rejection_text(endpoint@, status),
{
    let mut r = "Receiver rejected ".to_owned();
    r.append(endpoint);
    r.append(": status ");
    push_decimal(&mut r, status as u64);
    r
}

/// One request to the receiver and its answer, in the order in which they are made.
#[derive(Clone, Copy, Debug, PartialEq, Eq, Structural)]
pub enum Exchange {
    /// Pair-setup messages one and two.
    SetupStart,
    /// Pair-setup messages three and four.
    SetupProof,
    /// Pair-setup messages five and six.
    SetupIdentity,
    /// Pair-verify messages one and two.
    VerifyStart,
    /// Pair-verify messages three and four.
    VerifyProof,
    /// An encrypted OPTIONS request under the negotiated keys.
    Confirm,
}

/// How far pairing or verification has come.
#[derive(Clone, Copy, Debug, PartialEq, Eq, Structural)]
pub enum Handshake {
    Next(Exchange),
    Authenticated,
    Failed,
}

impl Handshake {
    /// Pairing with a code, where the code is well formed.
    pub fn pair(pin: &str) -> (r: Result<Handshake, Failure>)
        ensures
            r == (if pin@.len() == 4 && is_digits(pin@) {
                Ok::<Handshake, Failure>(Handshake::Next(Exchange::SetupStart))
            } else {
                Err(Failure::Pin)
            }),
    {
        match validate_pin(pin) {
            Ok(()) => Ok(Handshake::Next(Exchange::SetupStart)),
            Err(error) => Err(error),
        }
    }

    /// Verification of an identity that is already paired.
    pub fn verify() -> (r: Handshake)
        ensures
            r == Handshake::Next(Exchange::VerifyStart),
    {
        Handshake::Next(Exchange::VerifyStart)
    }

    pub open spec fn after(self, accepted: bool) -> Handshake {
        match self {
            Handshake::Next(exchange) => if !accepted {
                Handshake::Failed
            } else {
                match exchange {
                    Exchange::SetupStart => Handshake::Next(Exchange::SetupProof),
                    Exchange::SetupProof => Handshake::Next(Exchange::SetupIdentity),
                    Exchange::SetupIdentity => Handshake::Next(Exchange::VerifyStart),
                    Exchange::VerifyStart => Handshake::Next(Exchange::VerifyProof),
                    Exchange::VerifyProof => Handshake::Next(Exchange::Confirm),
                    Exchange::Confirm => Handshake::Authenticated,
                }
            },
            other => other,
        }
    }

    /// The handshake after the current exchange was accepted or refused; one that has ended
    /// stays as it is.
    pub fn next(self, accepted: bool) -> (r: Handshake)
        ensures
            r == self.after(accepted),
    {
        match self {
            Handshake::Next(exchange) => {
                if !accepted {
                    return Handshake::Failed;
                }
                match exchange {
                    Exchange::SetupStart => Handshake::Next(Exchange::SetupProof),
                    Exchange::SetupProof => Handshake::Next(Exchange::SetupIdentity),
                    Exchange::SetupIdentity => Handshake::Next(Exchange::VerifyStart),
                    Exchange::VerifyStart => Handshake::Next(Exchange::VerifyProof),
                    Exchange::VerifyProof => Handshake::Next(Exchange::Confirm),
                    Exchange::Confirm => Handshake::Authenticated,
                }
            },
            other => other,
        }
    }

    /// Where the handshake stands after a series of answers.
    pub open spec fn after_all(self, answers: Seq<bool>) -> Handshake
        decreases answers.len(),
    {
        if answers.len() == 0 {
            self
        } else {
            self.after_all(answers.drop_last()).after(answers.last())
        }
    }
}

/// A session counts as authenticated only once the encrypted round trip has succeeded.
pub proof fn authenticated_only_after_confirmation(handshake: Handshake, accepted: bool)
    requires
        handshake != Handshake::Authenticated,
        handshake.after(accepted) == Handshake::Authenticated,
    ensures
        handshake == Handshake::Next(Exchange::Confirm),
        accepted,
{
}

/// A refused exchange fails the handshake for good: no later answer authenticates it.
pub proof fn refusal_is_final(handshake: Handshake, exchange: Exchange, answers: Seq<bool>)
    requires
        handshake == Handshake::Next(exchange),
    ensures
        handshake.after(false).after_all(answers) == Handshake::Failed,
    decreases answers.len(),
{
    if answers.len() > 0 {
        refusal_is_final(handshake, exchange, answers.drop_last());
    }
}

/// How many exchanges are left from the given one on.
pub open spec fn exchanges_left(exchange: Exchange) -> nat {
    match exchange {
        Exchange::SetupStart => 6,
        Exchange::SetupProof => 5,
        Exchange::SetupIdentity => 4,
        Exchange::VerifyStart => 3,
        Exchange::VerifyProof => 2,
        Exchange::Confirm => 1,
    }
}

/// The first `count` answers are all acceptances.
pub open spec fn accepted_first(answers: Seq<bool>, count: nat) -> bool {
    answers.len() >= count && forall|i: int| 0 <= i < count ==> #[trigger] answers[i]
}

/// A handshake ends authenticated exactly when every exchange that it has left is accepted: six
/// for pairing, the last three of them for verification.
pub proof fn authenticated_iff_all_accepted(exchange: Exchange, answers: Seq<bool>)
    ensures
        Handshake::Next(exchange).after_all(answers) == Handshake::Authenticated <==>
            accepted_first(answers, exchanges_left(exchange)),
{
    lemma_handshake_state(exchange, answers);
}

/// The exchange with `left` exchanges left, where there is one.
spec fn exchange_at(left: nat) -> Exchange {
    if left >= 6 {
        Exchange::SetupStart
    } else if left == 5 {
        Exchange::SetupProof
    } else if left == 4 {
        Exchange::SetupIdentity
    } else if left == 3 {
        Exchange::VerifyStart
    } else if left == 2 {
        Exchange::VerifyProof
    } else {
        Exchange::Confirm
    }
}

proof fn lemma_handshake_state(exchange: Exchange, answers: Seq<bool>)
    ensures
        ({
            let left = exchanges_left(exchange);
            let state = Handshake::Next(exchange).after_all(answers);
            if accepted_first(answers, left) {
                state == Handshake::Authenticated
            } else if answers.len() < left && accepted_first(answers, answers.len()) {
                state == Handshake::Next(exchange_at((left - answers.len()) as nat))
            } else {
                state == Handshake::Failed
            }
        }),
    decreases answers.len(),
{
    if answers.len() > 0 {
        let earlier = answers.drop_last();
        lemma_handshake_state(exchange, earlier);
        let left = exchanges_left(exchange);
        assert forall|count: nat| count <= earlier.len() implies accepted_first(answers, count)
            == accepted_first(earlier, count) by {
            if accepted_first(answers, count) {
                assert forall|i: int| 0 <= i < count implies #[trigger] earlier[i] by {
                    assert(answers[i]);
                }
            }
            if accepted_first(earlier, count) {
                assert forall|i: int| 0 <= i < count implies #[trigger] answers[i] by {
                    assert(earlier[i]);
                }
            }
        }
        assert(accepted_first(answers, answers.len()) == (accepted_first(earlier, earlier.len())
            && answers.last()));
    } else {
        assert(accepted_first(answers, 0));
    }
}

/// The keys that a video stream is announced with.
pub struct StreamKeys {
    pub key: [u8; 16],
    pub iv: [u8; 16],
}

fn first_half(key: &[u8; 32]) -> (r: [u8; 16])
    ensures
        r@ == key@.take(16),
{
    let mut r: [u8; 16] = [0;16];
    let mut at: usize = 0;
    while at < 16
        invariant
            at <= 16,
            forall|i: int| 0 <= i < at ==> r@[i] == key@[i],
        decreases 16 - at,
    {
        r[at] = key[at];
        at = at + 1;
    }
    assert(r@ == key@.take(16));
    r
}

/// The stream key is the first half of the control write key, the initial vector the first half
/// of the read key.
pub fn stream_keys(write_key: &[u8; 32], read_key: &[u8; 32]) -> (r: StreamKeys)
    ensures
        r.key@ == write_key@.take(16),
        r.iv@ == read_key@.take(16),
{
    StreamKeys { key: first_half(write_key), iv: first_half(read_key) }
}

/// Texts one behind the other.
pub open spec fn run_together(parts: Seq<Seq<char>>) -> Seq<char>
    decreases parts.len(),
{
    if parts.len() == 0 {
        Seq::empty()
    } else {
        parts[0] + run_together(parts.drop_first())
    }
}

proof fn lemma_without_nothing(s: Seq<char>, c: char)
    requires
        !s.contains(c),
    ensures
        without(s, c) == s,
    decreases s.len(),
{
    reveal(Seq::filter);
    if s.len() > 0 {
        assert(s.contains(s.last()));
        assert(!s.drop_last().contains(c)) by {
            if s.drop_last().contains(c) {
                let i = choose|i: int| 0 <= i < s.len() - 1 && s.drop_last()[i] == c;
                assert(s[i] == c);
            }
        }
        lemma_without_nothing(s.drop_last(), c);
        assert(s.drop_last().push(s.last()) =~= s);
    } else {
        assert(without(s, c) =~= s);
    }
}

/// The file for a receiver is named by the parts of its hardware address, run together in order.
pub proof fn file_names_hold_the_address(parts: Seq<Seq<char>>)
    requires
        forall|i: int| 0 <= i < parts.len() ==> !(#[trigger] parts[i]).contains(':'),
    ensures
        CredentialStore::name_for(joined(parts, ':')) == run_together(parts) + ".json"@,
{
    lemma_without_joined(parts);
}

proof fn lemma_without_joined(parts: Seq<Seq<char>>)
    requires
        forall|i: int| 0 <= i < parts.len() ==> !(#[trigger] parts[i]).contains(':'),
    ensures
        without(joined(parts, ':'), ':') == run_together(parts),
    decreases parts.len(),
{
    if parts.len() == 0 {
        lemma_without_nothing(joined(parts, ':'), ':');
    } else {
        let first = parts[0];
        let rest = parts.drop_first();
        assert(!parts[0].contains(':'));
        lemma_without_nothing(first, ':');
        assert forall|i: int| 0 <= i < rest.len() implies !(#[trigger] rest[i]).contains(':') by {
            assert(rest[i] == parts[i + 1]);
        }
        lemma_without_joined(rest);
        if parts.len() == 1 {
            assert(run_together(rest) =~= Seq::empty());
            assert(first + Seq::<char>::empty() =~= first);
        } else {
            let tail = joined(rest, ':');
            lemma_without_sum(first + seq![':'], tail);
            lemma_without_sum(first, seq![':']);
            assert(without(seq![':'], ':') =~= Seq::empty()) by {
                reveal(Seq::filter);
                let colon = seq![':'];
                assert(colon.drop_last() =~= Seq::empty());
                lemma_without_nothing(colon.drop_last(), ':');
                assert(colon.last() == ':');
            }
            assert(first + Seq::<char>::empty() =~= first);
        }
    }
}

proof fn lemma_without_sum(a: Seq<char>, b: Seq<char>)
    ensures
        without(a + b, ':') == without(a, ':') + without(b, ':'),
    decreases b.len(),
{
    reveal(Seq::filter);
    if b.len() == 0 {
        assert(a + b =~= a);
        assert(without(a, ':') + without(b, ':') =~= without(a, ':'));
    } else {
        lemma_without_sum(a, b.drop_last());
        assert((a + b).drop_last() =~= a + b.drop_last());
        assert((a + b).last() == b.last());
        assert(without(a + b, ':') =~= without(a, ':') + without(b, ':'));
    }
}

} // verus!
