//! H.264 packets from the encoder: their lengths, their NAL units and the choice of encoder.

use crate::failure::Failure;
use crate::text::{
    begins_with, chars_of, contents, decimal, decimal_reads_back, decimals_are_digits, fields_of,
    is_blank, is_space, joined, joined_texts_split_back, lemma_fields_not_empty, lemma_not_blank,
    parse_unsigned, split, starts_with, trim, trimmed, trimming_takes_off_blanks, unsigned_value,
};
use std::path::PathBuf;
use vstd::prelude::*;
use vstd::slice::{slice_subrange, slice_to_vec};

verus! {

/// `std::path::PathBuf`, carried through without being looked into.
#[verifier::external_type_specification]
#[verifier::external_body]
pub struct ExPathBuf(PathBuf);

/// Which encoder turns captured frames into H.264.
#[derive(Debug, PartialEq, Eq)]
pub enum VideoEncoder {
    Software,
    Vaapi(PathBuf),
}

/// `<std::path::PathBuf as Clone>::clone`: a duplicate of the path.
pub assume_specification[ <PathBuf as Clone>::clone ](path: &PathBuf) -> (r: PathBuf)
    ensures
        r == *path,
;

impl Clone for VideoEncoder {
    fn clone(&self) -> (r: Self)
        ensures
            r == *self,
    {
        match self {
            VideoEncoder::Software => VideoEncoder::Software,
            VideoEncoder::Vaapi(device) => VideoEncoder::Vaapi(device.clone()),
        }
    }
}

impl VideoEncoder {
    pub open spec fn label_text(self) -> Seq<char> {
        match self {
            VideoEncoder::Software => "Software H.264"@,
            VideoEncoder::Vaapi(_) => "GPU H.264 · VA-API"@,
        }
    }

    pub fn label(&self) -> (r: &'static str)
        ensures
            r@ == self.label_text(),
    {
        match self {
            VideoEncoder::Software => "Software H.264",
            VideoEncoder::Vaapi(_) => "GPU H.264 · VA-API",
        }
    }
}

/// The largest encoded packet that is accepted, in bytes.
pub const MAX_PACKET: usize = 16777216;

/// What a line of packet metadata says: nothing for a comment or blank line, else the length
/// of the next packet of stream zero.
pub open spec fn packet_size_of(line: Seq<char>) -> Result<Option<nat>, Failure> {
    let fields = fields_of(line, ',');
    if (line.len() > 0 && line[0] == '#') || trimmed(line).len() == 0 {
        Ok(None)
    } else if trimmed(fields[0]) != seq!['0'] || fields.len() < 5 {
        Err(Failure::PacketMetadata)
    } else {
        match unsigned_value(trimmed(fields[4]), usize::MAX as nat) {
            None => Err(Failure::PacketLength),
            Some(size) => if fields.len() < 6 {
                Err(Failure::PacketMetadata)
            } else if 1 <= size <= MAX_PACKET {
                Ok(Some(size))
            } else {
                Err(Failure::PacketLimit)
            },
        }
    }
}

/// The packet length that a metadata line announces.
pub fn packet_size(line: &str) -> (r: Result<Option<usize>, Failure>)
    ensures
        r == (match packet_size_of(line@) {
            Ok(Some(size)) => Ok(Some(size as usize)),
            Ok(None) => Ok(None),
            Err(error) => Err(error),
        }),
{
    let chars = chars_of(line);
    if chars.len() > 0 && chars[0] == '#' {
        return Ok(None);
    }
    if trim(&chars).len() == 0 {
        return Ok(None);
    }
    let fields = split(&chars, ',');
    proof {
        lemma_fields_not_empty(line@, ',');
        assert(contents(fields@).len() == fields@.len());
        assert(contents(fields@)[0] == fields@[0]@);
    }
    let stream = trim(fields[0]);
    if stream.len() != 1 || stream[0] != '0' {
        assert(trimmed(fields_of(line@, ',')[0]) != seq!['0']) by {
            if stream@ == seq!['0'] {
                assert(stream@.len() == 1 && stream@[0] == '0');
            }
        }
        return Err(Failure::PacketMetadata);
    }
    assert(stream@ == seq!['0']);
    if fields.len() < 5 {
        return Err(Failure::PacketMetadata);
    }
    assert(contents(fields@)[4] == fields@[4]@);
    match parse_unsigned(trim(fields[4]), usize::MAX as u64) {
        None => Err(Failure::PacketLength),
        Some(size) => {
            if fields.len() < 6 {
                Err(Failure::PacketMetadata)
            } else if 1 <= size && size <= MAX_PACKET as u64 {
                Ok(Some(size as usize))
            } else {
                Err(Failure::PacketLimit)
            }
        },
    }
}

/// The line that announces a packet of stream zero gives its size, whatever stands in the fields
/// between and behind, and with or without blanks around the fields. The size is at most 16 MiB.
pub proof fn announced_sizes_are_read(
    fields: Seq<Seq<char>>,
    n: nat,
    front: Seq<char>,
    back: Seq<char>,
    before: Seq<char>,
    behind: Seq<char>,
)
    requires
        fields.len() >= 6,
        forall|i: int| 0 <= i < fields.len() ==> !(#[trigger] fields[i]).contains(','),
        is_blank(front) && is_blank(back) && is_blank(before) && is_blank(behind),
        fields[0] == front + seq!['0'] + back,
        fields[4] == before + decimal(n) + behind,
        n <= usize::MAX,
    ensures
        packet_size_of(joined(fields, ',')) == (if 1 <= n <= 16 * 1024 * 1024 {
            Ok(Some(n))
        } else {
            Err(Failure::PacketLimit)
        }),
{
    let line = joined(fields, ',');
    joined_texts_split_back(fields, ',');
    trimming_takes_off_blanks(front, seq!['0'], back);
    decimals_are_digits(n);
    trimming_takes_off_blanks(before, decimal(n), behind);
    decimal_reads_back(n, usize::MAX as nat);
    let first = fields[0];
    assert(first[front.len() as int] == '0');
    assert(line[0] == first[0]);
    assert(first[0] == '0' || is_space(first[0]));
    assert(line[front.len() as int] == '0');
    lemma_not_blank(line, front.len() as int);
}

/// A comment gives no size.
pub proof fn comments_give_no_size(rest: Seq<char>)
    ensures
        packet_size_of(seq!['#'] + rest) == Ok::<Option<nat>, Failure>(None),
{
}

/// How long a start code stands at `i`: four bytes, three, or none.
pub open spec fn start_code_len(data: Seq<u8>, i: int) -> int {
    if 0 <= i && i + 4 <= data.len() && data[i] == 0 && data[i + 1] == 0 && data[i + 2] == 0
        && data[i + 3] == 1 {
        4
    } else if 0 <= i && i + 3 <= data.len() && data[i] == 0 && data[i + 1] == 0 && data[i + 2]
        == 1 {
        3
    } else {
        0
    }
}

/// The first start code at or after `from`, with its length.
pub open spec fn next_start_code(data: Seq<u8>, from: int) -> Option<(int, int)>
    decreases data.len() - from,
{
    if from < 0 || from + 3 > data.len() {
        None
    } else if start_code_len(data, from) != 0 {
        Some((from, start_code_len(data, from)))
    } else {
        next_start_code(data, from + 1)
    }
}

/// Finds the first start code at or after `from`.
pub fn start_code(data: &[u8], from: usize) -> (r: Option<(usize, usize)>)
    ensures
        r is Some <==> next_start_code(data@, from as int) is Some,
        r matches Some((at, length)) ==> next_start_code(data@, from as int) == Some(
            (at as int, length as int),
        ),
        r matches Some((at, length)) ==> from <= at && at + length <= data@.len() && 3 <= length
            <= 4,
{
    let mut index: usize = from;
    while index < data.len() && data.len() - index >= 3
        invariant
            from <= index,
            next_start_code(data@, from as int) == next_start_code(data@, index as int),
        decreases data@.len() - index,
    {
        if data[index] == 0 && data[index + 1] == 0 {
            if data.len() - index >= 4 && data[index + 2] == 0 && data[index + 3] == 1 {
                return Some((index, 4));
            }
            if data[index + 2] == 1 {
                return Some((index, 3));
            }
        }
        index = index + 1;
    }
    None
}

/// The bounds of the NAL units of `data` from `begin` on, where none of them is empty.
pub open spec fn unit_bounds(data: Seq<u8>, begin: int) -> Option<Seq<(int, int)>>
    decreases data.len() - begin,
    via unit_bounds_decreases
{
    match next_start_code(data, begin) {
        None => if begin < data.len() {
            Some(seq![(begin, data.len() as int)])
        } else {
            None
        },
        Some((at, length)) => if begin < at && begin >= 0 {
            match unit_bounds(data, at + length) {
                None => None,
                Some(rest) => Some(seq![(begin, at)] + rest),
            }
        } else {
            None
        },
    }
}

#[via_fn]
proof fn unit_bounds_decreases(data: Seq<u8>, begin: int) {
    lemma_next_start_code(data, begin);
}

/// What is known of the start code that a search finds.
pub proof fn lemma_next_start_code(data: Seq<u8>, from: int)
    ensures
        next_start_code(data, from) matches Some((at, length)) ==> {
            &&& 0 <= from <= at
            &&& length == start_code_len(data, at)
            &&& 3 <= length <= 4
            &&& at + length <= data.len()
            &&& forall|i: int| from <= i < at ==> #[trigger] start_code_len(data, i) == 0
        },
        next_start_code(data, from) is None && from >= 0 ==> forall|i: int|
            from <= i ==> #[trigger] start_code_len(data, i) == 0,
    decreases data.len() - from,
{
    if 0 <= from && from + 3 <= data.len() && start_code_len(data, from) == 0 {
        lemma_next_start_code(data, from + 1);
    }
}

/// The NAL unit type in the low five bits of its first byte.
pub open spec fn nal_type(unit: Seq<u8>) -> u8 {
    unit[0] & 31
}

/// Marks the boundary between access units and carries no picture.
pub const DELIMITER: u8 = 9;

/// The units between the given bounds, but for access unit delimiters.
pub open spec fn kept_units(data: Seq<u8>, bounds: Seq<(int, int)>) -> Seq<Seq<u8>>
    decreases bounds.len(),
{
    if bounds.len() == 0 {
        Seq::empty()
    } else {
        let unit = data.subrange(bounds.last().0, bounds.last().1);
        if nal_type(unit) == DELIMITER {
            kept_units(data, bounds.drop_last())
        } else {
            kept_units(data, bounds.drop_last()).push(unit)
        }
    }
}

/// The picture-carrying NAL units of an encoded packet in Annex B form.
pub open spec fn access_unit(packet: Seq<u8>) -> Result<Seq<Seq<u8>>, Failure> {
    match next_start_code(packet, 0) {
        None => Err(Failure::NotAnnexB),
        Some((at, length)) => if at != 0 {
            Err(Failure::LeadingData)
        } else {
            match unit_bounds(packet, length) {
                None => Err(Failure::EmptyUnit),
                Some(bounds) => if kept_units(packet, bounds).len() == 0 {
                    Err(Failure::NoUnits)
                } else {
                    Ok(kept_units(packet, bounds))
                },
            }
        },
    }
}

/// An encoder packet, kept whole, with the bounds of its NAL units.
pub struct VideoFrame {
    packet: Vec<u8>,
    nals: Vec<(usize, usize)>,
}

impl VideoFrame {
    #[verifier::type_invariant]
    spec fn well_formed(self) -> bool {
        &&& self.nals@.len() > 0
        &&& forall|i: int|
            0 <= i < self.nals@.len() ==> (#[trigger] self.nals@[i]).0 < self.nals@[i].1
                <= self.packet@.len()
    }

    /// The whole packet.
    pub closed spec fn bytes(self) -> Seq<u8> {
        self.packet@
    }

    /// The NAL units, in order.
    pub closed spec fn units(self) -> Seq<Seq<u8>> {
        Seq::new(
            self.nals@.len(),
            |i: int| self.packet@.subrange(self.nals@[i].0 as int, self.nals@[i].1 as int),
        )
    }

    /// Splits a packet at its start codes and drops access unit delimiters.
    pub fn from_packet(packet: Vec<u8>) -> (r: Result<VideoFrame, Failure>)
        ensures
            match access_unit(packet@) {
                Ok(units) => r matches Ok(frame) && frame.units() == units && frame.bytes()
                    == packet@,
                Err(error) => r == Err::<VideoFrame, Failure>(error),
            },
            r matches Ok(frame) ==> all_nonempty(frame.units()),
    {
        let first = start_code(&packet, 0);
        let mut cursor: (usize, usize) = match first {
            None => {
                return Err(Failure::NotAnnexB);
            },
            Some(found) => found,
        };
        if cursor.0 != 0 {
            return Err(Failure::LeadingData);
        }
        let ghost data = packet@;
        let ghost start = cursor.1 as int;
        let mut nals: Vec<(usize, usize)> = Vec::new();
        let ghost mut bounds: Seq<(int, int)> = Seq::empty();
        assert(kept_units(data, bounds) =~= cut(data, nals@));
        proof {
            if let Some(rest) = unit_bounds(data, start) {
                assert(bounds + rest == rest);
            }
        }
        loop
            invariant_except_break
                packet@ == data,
                cursor.0 + cursor.1 <= data.len(),
                cut(data, nals@) == kept_units(data, bounds),
                forall|i: int|
                    0 <= i < nals@.len() ==> (#[trigger] nals@[i]).0 < nals@[i].1 <= data.len(),
                unit_bounds(data, start) == (match unit_bounds(data, cursor.0 + cursor.1) {
                    None => None,
                    Some(rest) => Some(bounds + rest),
                }),
                access_unit(data) == (match unit_bounds(data, start) {
                    None => Err(Failure::EmptyUnit),
                    Some(all) => if kept_units(data, all).len() == 0 {
                        Err(Failure::NoUnits)
                    } else {
                        Ok(kept_units(data, all))
                    },
                }),
            ensures
                packet@ == data,
                cut(data, nals@) == kept_units(data, bounds),
                forall|i: int|
                    0 <= i < nals@.len() ==> (#[trigger] nals@[i]).0 < nals@[i].1 <= data.len(),
                access_unit(data) == (if kept_units(data, bounds).len() == 0 {
                    Err(Failure::NoUnits)
                } else {
                    Ok(kept_units(data, bounds))
                }),
            decreases data.len() - cursor.0 - cursor.1,
        {
            assert(packet.len() == data.len());
            let begin = cursor.0 + cursor.1;
            let next = start_code(&packet, begin);
            let end = match next {
                Some(found) => found.0,
                None => packet.len(),
            };
            if end <= begin {
                return Err(Failure::EmptyUnit);
            }
            let ghost before = nals@;
            let ghost earlier = bounds;
            proof {
                bounds = bounds.push((begin as int, end as int));
                assert(bounds.drop_last() == earlier);
                assert(data.subrange(begin as int, end as int)[0] == data[begin as int]);
            }
            if packet[begin] & 31 != DELIMITER {
                nals.push((begin, end));
                assert(cut(data, nals@) =~= cut(data, before).push(
                    data.subrange(begin as int, end as int),
                ));
            }
            match next {
                Some(found) => {
                    cursor = found;
                    proof {
                        if let Some(rest) = unit_bounds(data, cursor.0 + cursor.1) {
                            assert(bounds + rest == earlier + (seq![(begin as int, end as int)]
                                + rest));
                        }
                    }
                },
                None => {
                    assert(bounds == earlier + seq![(begin as int, end as int)]);
                    break;
                },
            }
        }
        if nals.len() == 0 {
            return Err(Failure::NoUnits);
        }
        let frame = VideoFrame { packet, nals };
        assert(frame.units() =~= cut(data, nals@));
        Ok(frame)
    }

    /// The whole packet, as the encoder wrote it.
    pub fn packet(&self) -> (r: &Vec<u8>)
        ensures
            r@ == self.bytes(),
    {
        &self.packet
    }

    /// The NAL units, borrowed from the packet.
    pub fn iter(&self) -> (r: Vec<&[u8]>)
        ensures
            borrowed(r@) == self.units(),
            all_nonempty(self.units()),
    {
        proof {
            use_type_invariant(self);
        }
        let mut r: Vec<&[u8]> = Vec::new();
        let mut at: usize = 0;
        while at < self.nals.len()
            invariant
                at <= self.nals@.len(),
                self.well_formed(),
                borrowed(r@) == self.units().take(at as int),
            decreases self.nals@.len() - at,
        {
            let bounds = self.nals[at];
            let ghost before = r@;
            r.push(slice_subrange(&self.packet, bounds.0, bounds.1));
            assert(borrowed(r@) == borrowed(before).push(self.units()[at as int]));
            assert(self.units().take(at + 1) == self.units().take(at as int).push(
                self.units()[at as int],
            ));
            at = at + 1;
        }
        assert(self.units().take(at as int) == self.units());
        r
    }

    /// The NAL units, copied out of the packet.
    pub fn to_units(&self) -> (r: Vec<Vec<u8>>)
        ensures
            owned(r@) == self.units(),
            all_nonempty(self.units()),
    {
        proof {
            use_type_invariant(self);
        }
        let mut r: Vec<Vec<u8>> = Vec::new();
        let mut at: usize = 0;
        while at < self.nals.len()
            invariant
                at <= self.nals@.len(),
                self.well_formed(),
                owned(r@) == self.units().take(at as int),
            decreases self.nals@.len() - at,
        {
            let bounds = self.nals[at];
            let ghost before = r@;
            r.push(slice_to_vec(slice_subrange(&self.packet, bounds.0, bounds.1)));
            assert(owned(r@) == owned(before).push(self.units()[at as int]));
            assert(self.units().take(at + 1) == self.units().take(at as int).push(
                self.units()[at as int],
            ));
            at = at + 1;
        }
        assert(self.units().take(at as int) == self.units());
        r
    }
}

/// The parts of `data` between the given bounds.
spec fn cut(data: Seq<u8>, bounds: Seq<(usize, usize)>) -> Seq<Seq<u8>> {
    Seq::new(bounds.len(), |i: int| data.subrange(bounds[i].0 as int, bounds[i].1 as int))
}

/// What each of several borrowed byte strings holds.
pub open spec fn borrowed(parts: Seq<&[u8]>) -> Seq<Seq<u8>> {
    parts.map_values(|part: &[u8]| part@)
}

/// What each of several byte strings holds.
pub open spec fn owned(parts: Seq<Vec<u8>>) -> Seq<Seq<u8>> {
    parts.map_values(|part: Vec<u8>| part@)
}

/// Every unit has at least its type byte.
pub open spec fn all_nonempty(units: Seq<Seq<u8>>) -> bool {
    forall|i: int| 0 <= i < units.len() ==> (#[trigger] units[i]).len() > 0
}

/// `units` in Annex B form, each behind a four-byte start code.
pub open spec fn annex_b(units: Seq<Seq<u8>>) -> Seq<u8>
    decreases units.len(),
{
    if units.len() == 0 {
        Seq::empty()
    } else {
        seq![0u8, 0, 0, 1] + units[0] + annex_b(units.drop_first())
    }
}

/// Nothing in `unit` reads as a start code.
pub open spec fn free_of_start_codes(unit: Seq<u8>) -> bool {
    forall|i: int| #[trigger] start_code_len(unit, i) == 0
}

/// The units that a frame keeps: all but access unit delimiters.
pub open spec fn without_delimiters(units: Seq<Seq<u8>>) -> Seq<Seq<u8>> {
    units.filter(|unit: Seq<u8>| nal_type(unit) != DELIMITER)
}

/// Splitting a stream of units in Annex B form gives back the units, in order and unchanged,
/// but for access unit delimiters.
pub proof fn annex_b_splits_back(units: Seq<Seq<u8>>)
    requires
        units.len() > 0,
        all_nonempty(units),
        forall|i: int| 0 <= i < units.len() ==> free_of_start_codes(#[trigger] units[i]),
    ensures
        access_unit(annex_b(units)) == (if without_delimiters(units).len() == 0 {
            Err(Failure::NoUnits)
        } else {
            Ok(without_delimiters(units))
        }),
{
    let long = Seq::new(units.len(), |i: int| true);
    lemma_long_codes(units, long);
    any_start_codes_split_back(units, long);
    lemma_without_delimiters(units);
}

/// A start code of four bytes, or of three.
pub open spec fn code(long: bool) -> Seq<u8> {
    if long {
        seq![0u8, 0, 0, 1]
    } else {
        seq![0u8, 0, 1]
    }
}

/// `units` in Annex B form, each behind a start code that is long or short as said.
pub open spec fn annex_b_with(units: Seq<Seq<u8>>, long: Seq<bool>) -> Seq<u8>
    decreases units.len(),
{
    if units.len() == 0 {
        Seq::empty()
    } else {
        code(long[0]) + units[0] + annex_b_with(units.drop_first(), long.drop_first())
    }
}

/// No unit in front of a short start code ends in a zero byte, which would be read as part of a
/// long one.
pub open spec fn codes_stand_alone(units: Seq<Seq<u8>>, long: Seq<bool>) -> bool {
    forall|i: int| 0 <= i < units.len() - 1 && !long[i + 1] ==> (#[trigger] units[i]).last() != 0
}

/// Splitting a stream of units gives back the units, in order and unchanged, but for access unit
/// delimiters, whether their start codes have three bytes or four.
pub proof fn any_start_codes_split_back(units: Seq<Seq<u8>>, long: Seq<bool>)
    requires
        units.len() > 0,
        long.len() == units.len(),
        all_nonempty(units),
        forall|i: int| 0 <= i < units.len() ==> free_of_start_codes(#[trigger] units[i]),
        codes_stand_alone(units, long),
    ensures
        access_unit(annex_b_with(units, long)) == (if units.filter(
            |unit: Seq<u8>| unit[0] % 32 != 9,
        ).len() == 0 {
            Err(Failure::NoUnits)
        } else {
            Ok(units.filter(|unit: Seq<u8>| unit[0] % 32 != 9))
        }),
{
    let data = annex_b_with(units, long);
    let length = code(long[0]).len() as int;
    assert(data.len() >= length);
    assert(data[0] == 0 && data[1] == 0);
    assert(start_code_len(data, 0) == length) by {
        assert(data[2] == code(long[0])[2]);
        if long[0] {
            assert(data[3] == 1);
        }
    }
    let bounds = lemma_split(Seq::empty(), units, long);
    assert(Seq::<u8>::empty() + data == data);
    lemma_kept(data, units, bounds);
    lemma_without_delimiters(units);
}

proof fn lemma_without_delimiters(units: Seq<Seq<u8>>)
    ensures
        without_delimiters(units) == units.filter(|unit: Seq<u8>| unit[0] % 32 != 9),
    decreases units.len(),
{
    reveal(Seq::filter);
    if units.len() > 0 {
        lemma_without_delimiters(units.drop_last());
        let first = units.last()[0];
        assert(first & 31 == first % 32) by (bit_vector);
    }
}

proof fn lemma_long_codes(units: Seq<Seq<u8>>, long: Seq<bool>)
    requires
        long.len() == units.len(),
        forall|i: int| 0 <= i < long.len() ==> #[trigger] long[i],
    ensures
        annex_b_with(units, long) == annex_b(units),
    decreases units.len(),
{
    if units.len() > 0 {
        assert(long[0]);
        let rest = long.drop_first();
        assert forall|i: int| 0 <= i < rest.len() implies #[trigger] rest[i] by {
            assert(long[i + 1]);
        }
        lemma_long_codes(units.drop_first(), rest);
    }
}

/// The bounds that a split of `units` behind `front` finds.
proof fn lemma_split(front: Seq<u8>, units: Seq<Seq<u8>>, long: Seq<bool>) -> (bounds: Seq<(int, int)>)
    requires
        units.len() > 0,
        long.len() == units.len(),
        all_nonempty(units),
        forall|i: int| 0 <= i < units.len() ==> free_of_start_codes(#[trigger] units[i]),
        codes_stand_alone(units, long),
    ensures
        unit_bounds(
            front + annex_b_with(units, long),
            front.len() as int + code(long[0]).len(),
        ) == Some(bounds),
        bounds.len() == units.len(),
        forall|i: int|
            0 <= i < units.len() ==> (front + annex_b_with(units, long)).subrange(
                #[trigger] bounds[i].0,
                bounds[i].1,
            ) == units[i],
    decreases units.len(),
{
    let unit = units[0];
    let rest = units.drop_first();
    let others = long.drop_first();
    let data = front + annex_b_with(units, long);
    let begin: int = front.len() as int + code(long[0]).len();
    let end: int = begin + unit.len();
    let pre = front + code(long[0]);
    assert(data =~= pre + unit + annex_b_with(rest, others));
    assert(free_of_start_codes(units[0]));
    assert(units[0].len() > 0);
    if rest.len() > 0 {
        let next = code(others[0]);
        assert(data[end] == next[0] && data[end + 1] == next[1] && data[end + 2] == next[2]);
        assert(others[0] == long[1]);
        if !others[0] {
            assert(units[0].last() != 0);
            assert(data[end - 1] == unit.last());
        } else {
            assert(data[end + 3] == next[3]);
        }
    }
    assert forall|i: int| begin <= i < end implies #[trigger] start_code_len(data, i) == 0 by {
        let k = i - begin;
        assert(start_code_len(unit, k) == 0);
        assert(data[i] == unit[k]);
        if i + 1 < end {
            assert(data[i + 1] == unit[k + 1]);
        }
        if i + 2 < end {
            assert(data[i + 2] == unit[k + 2]);
        }
        if i + 3 < end {
            assert(data[i + 3] == unit[k + 3]);
        }
    }
    lemma_skip(data, begin, end);
    if rest.len() == 0 {
        assert(data.len() == end);
        assert(unit_bounds(data, begin) == Some(seq![(begin, end)]));
        let bounds = seq![(begin, end)];
        assert(data.subrange(begin, end) =~= unit);
        bounds
    } else {
        assert(start_code_len(data, end) == code(others[0]).len());
        assert forall|i: int| 0 <= i < rest.len() - 1 && !others[i + 1] implies (
        #[trigger] rest[i]).last() != 0 by {
            assert(units[i + 1].last() != 0);
        }
        let tail = lemma_split(pre + unit, rest, others);
        assert((pre + unit) + annex_b_with(rest, others) == data);
        let bounds = seq![(begin, end)] + tail;
        assert forall|i: int| 0 <= i < units.len() implies data.subrange(
            #[trigger] bounds[i].0,
            bounds[i].1,
        ) == units[i] by {
            if i == 0 {
                assert(data.subrange(begin, end) =~= unit);
            } else {
                assert(bounds[i] == tail[i - 1]);
                assert(rest[i - 1] == units[i]);
            }
        }
        bounds
    }
}

proof fn lemma_skip(data: Seq<u8>, from: int, to: int)
    requires
        0 <= from <= to <= data.len(),
        forall|i: int| from <= i < to ==> #[trigger] start_code_len(data, i) == 0,
    ensures
        next_start_code(data, from) == next_start_code(data, to),
    decreases to - from,
{
    if from < to {
        assert(start_code_len(data, from) == 0);
        lemma_skip(data, from + 1, to);
    }
}

proof fn lemma_kept(data: Seq<u8>, units: Seq<Seq<u8>>, bounds: Seq<(int, int)>)
    requires
        bounds.len() == units.len(),
        forall|i: int|
            0 <= i < units.len() ==> data.subrange(#[trigger] bounds[i].0, bounds[i].1) == units[i],
    ensures
        kept_units(data, bounds) == without_delimiters(units),
    decreases units.len(),
{
    reveal(Seq::filter);
    if units.len() > 0 {
        lemma_kept(data, units.drop_last(), bounds.drop_last());
        assert(bounds.last() == bounds[bounds.len() - 1]);
    }
}

/// Whether one of `units` has the given type.
pub open spec fn has_type(units: Seq<Seq<u8>>, kind: u8) -> bool {
    exists|i: int| 0 <= i < units.len() && nal_type(#[trigger] units[i]) == kind
}

/// The first unit of the given type, if there is one.
pub open spec fn first_of_type(units: Seq<Seq<u8>>, kind: u8) -> Option<Seq<u8>>
    decreases units.len(),
{
    if units.len() == 0 {
        None
    } else if nal_type(units[0]) == kind {
        Some(units[0])
    } else {
        first_of_type(units.drop_first(), kind)
    }
}

pub proof fn lemma_first_of_type(units: Seq<Seq<u8>>, kind: u8)
    ensures
        first_of_type(units, kind) is Some <==> has_type(units, kind),
    decreases units.len(),
{
    if units.len() > 0 {
        let rest = units.drop_first();
        lemma_first_of_type(rest, kind);
        if has_type(units, kind) && nal_type(units[0]) != kind {
            let i = choose|i: int| 0 <= i < units.len() && nal_type(#[trigger] units[i]) == kind;
            assert(rest[i - 1] == units[i]);
        }
        if has_type(rest, kind) {
            let i = choose|i: int| 0 <= i < rest.len() && nal_type(#[trigger] rest[i]) == kind;
            assert(units[i + 1] == rest[i]);
        }
    }
}

/// Where the first unit of the given type stands.
pub fn find_type(units: &Vec<Vec<u8>>, kind: u8) -> (r: Option<usize>)
    requires
        all_nonempty(owned(units@)),
    ensures
        match r {
            Some(i) => i < units@.len() && first_of_type(owned(units@), kind) == Some(
                units@[i as int]@,
            ),
            None => first_of_type(owned(units@), kind) is None,
        },
        r is Some <==> has_type(owned(units@), kind),
{
    proof {
        lemma_first_of_type(owned(units@), kind);
    }
    let ghost all = owned(units@);
    let mut at: usize = 0;
    assert(all.subrange(0, all.len() as int) == all);
    while at < units.len()
        invariant
            at <= units@.len(),
            all == owned(units@),
            all_nonempty(all),
            first_of_type(all, kind) == first_of_type(
                all.subrange(at as int, all.len() as int),
                kind,
            ),
            first_of_type(all, kind) is Some <==> has_type(all, kind),
        decreases units@.len() - at,
    {
        let ghost rest = all.subrange(at as int, all.len() as int);
        assert(all[at as int] == units@[at as int]@);
        assert(rest[0] == units@[at as int]@);
        if units[at][0] & 31 == kind {
            return Some(at);
        }
        assert(rest.drop_first() == all.subrange(at + 1, all.len() as int));
        at = at + 1;
    }
    None
}

/// What a test packet of an encoder must hold: a picture and, in the first one, the parameter
/// sets and a keyframe.
pub open spec fn probe_outcome(index: nat, units: Seq<Seq<u8>>) -> Result<(), Failure> {
    if !has_type(units, 1) && !has_type(units, 5) {
        Err(Failure::NoPicture)
    } else if index == 0 && !(has_type(units, 7) && has_type(units, 8) && has_type(units, 5)) {
        Err(Failure::NoInitialKeyframe)
    } else {
        Ok(())
    }
}

/// How many test packets an encoder has to deliver.
pub const PROBE_PACKETS: usize = 3;

impl VideoEncoder {
    /// Judges test packet number `index`, and says whether it was the last one needed.
    pub fn probe(index: usize, units: &Vec<Vec<u8>>) -> (r: Result<bool, Failure>)
        requires
            all_nonempty(owned(units@)),
        ensures
            match probe_outcome(index as nat, owned(units@)) {
                Err(failure) => r == Err::<bool, Failure>(failure),
                Ok(()) => r == Ok::<bool, Failure>(index + 1 >= PROBE_PACKETS),
            },
    {
        let keyframe = find_type(units, 5).is_some();
        if find_type(units, 1).is_none() && !keyframe {
            return Err(Failure::NoPicture);
        }
        if index == 0 {
            if find_type(units, 7).is_none() || find_type(units, 8).is_none() || !keyframe {
                return Err(Failure::NoInitialKeyframe);
            }
        }
        Ok(index >= PROBE_PACKETS - 1)
    }

    /// Begins to look for a working encoder among `devices` render devices.
    pub fn detect(devices: usize) -> (r: EncoderSearch)
        ensures
            r == (if devices > 0 {
                EncoderSearch::Probe(0)
            } else {
                EncoderSearch::Software
            }),
    {
        if devices > 0 {
            EncoderSearch::Probe(0)
        } else {
            EncoderSearch::Software
        }
    }
}

/// Whether a file name under the DRM directory is that of a render device.
pub fn is_render_node(name: &str) -> (r: bool)
    ensures
        r == begins_with(name@, "renderD"@),
{
    starts_with(&chars_of(name), &chars_of("renderD"))
}

/// What the search for a working hardware encoder does next.
#[derive(Clone, Copy, Debug, PartialEq, Eq, Structural)]
pub enum EncoderSearch {
    /// Test the render device with this number.
    Probe(usize),
    /// Use the render device with this number.
    Hardware(usize),
    /// No device works: encode in software.
    Software,
}

impl EncoderSearch {
    /// The search after the tested device passed or failed; one that has ended stays as it is.
    pub fn next(self, devices: usize, passed: bool) -> (r: EncoderSearch)
        ensures
            r == self.after(devices as int, passed),
    {
        match self {
            EncoderSearch::Probe(device) => {
                if passed {
                    EncoderSearch::Hardware(device)
                } else if device < devices && devices - device > 1 {
                    EncoderSearch::Probe(device + 1)
                } else {
                    EncoderSearch::Software
                }
            },
            other => other,
        }
    }

    pub open spec fn after(self, devices: int, passed: bool) -> EncoderSearch {
        match self {
            EncoderSearch::Probe(device) => if passed {
                EncoderSearch::Hardware(device)
            } else if device + 1 < devices {
                EncoderSearch::Probe((device + 1) as usize)
            } else {
                EncoderSearch::Software
            },
            other => other,
        }
    }

    /// Where the search ends when device `i` would pass exactly where `passes[i]` says so.
    pub open spec fn outcome(self, passes: Seq<bool>) -> EncoderSearch
        decreases
                match self {
                    EncoderSearch::Probe(device) => passes.len() - device,
                    _ => 0,
                },
    {
        match self {
            EncoderSearch::Probe(device) => if device < passes.len() && passes.len() <= usize::MAX {
                match self.after(passes.len() as int, passes[device as int]) {
                    EncoderSearch::Probe(next) => EncoderSearch::Probe(next).outcome(passes),
                    ended => ended,
                }
            } else {
                self
            },
            other => other,
        }
    }
}

/// The search picks the first device that passes its test, and falls back to software exactly
/// where none does.
pub proof fn search_picks_first_working_device(passes: Seq<bool>)
    requires
        0 < passes.len() <= usize::MAX,
    ensures
        match EncoderSearch::Probe(0).outcome(passes) {
            EncoderSearch::Hardware(device) => device < passes.len() && passes[device as int]
                && forall|i: int| 0 <= i < device ==> !passes[i],
            EncoderSearch::Software => forall|i: int| 0 <= i < passes.len() ==> !passes[i],
            EncoderSearch::Probe(_) => false,
        },
{
    lemma_search(passes, 0);
}

proof fn lemma_search(passes: Seq<bool>, from: usize)
    requires
        from < passes.len() <= usize::MAX,
        forall|i: int| 0 <= i < from ==> !passes[i],
    ensures
        match EncoderSearch::Probe(from).outcome(passes) {
            EncoderSearch::Hardware(device) => device < passes.len() && passes[device as int]
                && forall|i: int| 0 <= i < device ==> !passes[i],
            EncoderSearch::Software => forall|i: int| 0 <= i < passes.len() ==> !passes[i],
            EncoderSearch::Probe(_) => false,
        },
    decreases passes.len() - from,
{
    if !passes[from as int] && from + 1 < passes.len() {
        lemma_search(passes, (from + 1) as usize);
    }
}

/// A test packet passes exactly where it shows a picture, and the first one only with both
/// parameter sets and a keyframe.
pub proof fn test_packets_show_pictures(index: nat, units: Seq<Seq<u8>>)
    ensures
        probe_outcome(index, units) is Ok <==> {
            &&& holds_kind(units, 1) || holds_kind(units, 5)
            &&& index == 0 ==> holds_kind(units, 5) && holds_kind(units, 7) && holds_kind(units, 8)
        },
{
    lemma_kinds(units, 1);
    lemma_kinds(units, 5);
    lemma_kinds(units, 7);
    lemma_kinds(units, 8);
}

/// One of `units` begins with a byte that gives the type in its low five bits.
pub open spec fn holds_kind(units: Seq<Seq<u8>>, kind: u8) -> bool {
    exists|i: int| 0 <= i < units.len() && (#[trigger] units[i])[0] % 32 == kind
}

proof fn lemma_kinds(units: Seq<Seq<u8>>, kind: u8)
    ensures
        has_type(units, kind) <==> holds_kind(units, kind),
{
    if has_type(units, kind) {
        let i = choose|i: int| 0 <= i < units.len() && nal_type(#[trigger] units[i]) == kind;
        let first = units[i][0];
        assert(first & 31 == first % 32) by (bit_vector);
        assert(units[i][0] % 32 == kind);
    }
    if holds_kind(units, kind) {
        let i = choose|i: int| 0 <= i < units.len() && (#[trigger] units[i])[0] % 32 == kind;
        let first = units[i][0];
        assert(first & 31 == first % 32) by (bit_vector);
        assert(nal_type(units[i]) == kind);
    }
}

} // verus!
