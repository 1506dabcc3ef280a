//! The footprint and the volume of a trace. The volume is the sum of the
//! lengths of all its requests; the footprint is the number of sectors that
//! its writes touch, a sector counted once however often it is written.

use crate::error::HMSimError;
use crate::record::{parse_record, parse_record_spec, volume, Direction, Request};
use crate::text::{decimal_text, digit_char, push_decimal, push_digit};
use vstd::prelude::*;
use vstd::set_lib::{
    lemma_int_range, lemma_len_subset, lemma_len_union, lemma_set_disjoint_lens, set_int_range,
};
use vstd::string::*;
use vstd::utf8::encode_utf8;

verus! {

/// One bit for each sector of an address space that starts at sector 0.
pub struct BitMapWrite {
    map: Vec<u64>,
}

proof fn lemma_no_bit_of_zero(bit: u64)
    by (bit_vector)
    requires
        bit < 64,
    ensures
        0u64 & (1u64 << bit) == 0,
{
}

proof fn lemma_bit_after_set(word: u64, bit: u64, other: u64)
    by (bit_vector)
    requires
        bit < 64,
        other < 64,
    ensures
        ((word | (1u64 << bit)) & (1u64 << other) != 0) == (other == bit || (word & (1u64 << other)
            != 0)),
{
}

impl View for BitMapWrite {
    type V = Set<int>;

    /// The sectors whose bits are set.
    closed spec fn view(&self) -> Set<int> {
        Set::new(
            |sector: int|
                0 <= sector < self.map@.len() * 64 && self.map@[sector / 64] & (1u64 << ((sector
                    % 64) as u64)) != 0,
        )
    }
}

impl BitMapWrite {
    /// The number of sectors that the map has a bit for.
    pub closed spec fn capacity(&self) -> nat {
        self.map@.len() * 64
    }

    /// Only sectors that the map has a bit for are set, so they are finitely
    /// many.
    pub proof fn lemma_view_bounded(&self)
        ensures
            self@.subset_of(set_int_range(0, self.capacity() as int)),
            self@.finite(),
    {
        lemma_int_range(0, self.capacity() as int);
        lemma_len_subset(self@, set_int_range(0, self.capacity() as int));
    }

    /// A map for the sectors below `units`, none set.
    pub fn new(units: u64) -> (bitmap: BitMapWrite)
        requires
            units / 64 < usize::MAX,
        ensures
            bitmap@ == Set::<int>::empty(),
            bitmap.capacity() >= units,
    {
        let words = (units / 64) as usize + 1;
        let map = vec![0u64; words];
        let bitmap = BitMapWrite { map };
        proof {
            assert forall|sector: int| !bitmap@.contains(sector) by {
                if 0 <= sector < bitmap.map@.len() * 64 {
                    lemma_no_bit_of_zero((sector % 64) as u64);
                }
            }
            assert(bitmap@ =~= Set::<int>::empty());
        }
        bitmap
    }

    /// Whether the bit of sector `index` is set.
    pub fn test_bit(&self, index: u64) -> (set: bool)
        requires
            index < self.capacity(),
        ensures
            set == self@.contains(index as int),
    {
        let words = self.map.len();
        assert(index / 64 < words);
        let block = (index / 64) as usize;
        let bit = index % 64;
        self.map[block] & (1u64 << bit) != 0
    }

    /// Sets the bit of sector `index`.
    pub fn set_bit(&mut self, index: u64) -> (done: bool)
        requires
            index < old(self).capacity(),
        ensures
            done,
            final(self)@ == old(self)@.insert(index as int),
            final(self).capacity() == old(self).capacity(),
    {
        let words = self.map.len();
        assert(index / 64 < words);
        let block = (index / 64) as usize;
        let bit = index % 64;
        let word = self.map[block];
        self.map.set(block, word | (1u64 << bit));
        proof {
            assert forall|sector: int|
                self@.contains(sector) == old(self)@.insert(index as int).contains(sector) by {
                if 0 <= sector < self.map@.len() * 64 {
                    if sector / 64 == block {
                        lemma_bit_after_set(word, bit, (sector % 64) as u64);
                    }
                }
            }
            assert(self@ =~= old(self)@.insert(index as int));
        }
        true
    }
}

/// Lowers `min_index` to `offset` and raises `max_index` to it, where it
/// lies outside them.
pub fn update_min_max(min_index: &mut u64, max_index: &mut u64, offset: u64)
    ensures
        *final(min_index) == if offset < *old(min_index) {
            offset
        } else {
            *old(min_index)
        },
        *final(max_index) == if offset > *old(max_index) {
            offset
        } else {
            *old(max_index)
        },
{
    if offset < *min_index {
        *min_index = offset;
    }
    if offset > *max_index {
        *max_index = offset;
    }
}

/// Whether `record` writes `sector`.
pub open spec fn writes_to(record: Request, sector: int) -> bool {
    record.direction == Direction::Write && record.offset <= sector < record.offset + record.length
}

/// The sectors that `record` writes.
pub open spec fn written_by(record: Request) -> Set<int> {
    Set::new(|sector: int| writes_to(record, sector))
}

/// The sectors that some record of `records` writes.
pub open spec fn covered(records: Seq<Request>) -> Set<int> {
    Set::new(
        |sector: int|
            exists|i: int| 0 <= i < records.len() && writes_to(#[trigger] records[i], sector),
    )
}

/// The end of the write of `records` that ends last; 0 where none writes.
pub open spec fn reach(records: Seq<Request>) -> nat
    decreases records.len(),
{
    if records.len() == 0 {
        0
    } else {
        let before = reach(records.drop_last());
        let last = records.last();
        if last.direction == Direction::Write && last.offset + last.length > before {
            (last.offset + last.length) as nat
        } else {
            before
        }
    }
}

/// The traces that can be counted: the writes end at sector `u64::MAX` at
/// the latest, the volume is `u64::MAX` at most, and a bit map for the
/// sectors that the writes reach can be held.
pub open spec fn countable(records: Seq<Request>) -> bool {
    &&& reach(records) <= u64::MAX
    &&& volume(records) <= u64::MAX
    &&& reach(records) / 64 < usize::MAX
}

/// The footprint and the volume of `records`, in sectors.
pub open spec fn analysis_of(records: Seq<Request>) -> Result<(u64, u64), HMSimError> {
    if countable(records) {
        Ok((covered(records).len() as u64, volume(records) as u64))
    } else {
        Err(HMSimError::ParseError)
    }
}

/// The sectors written by a record are as many as it is long.
pub proof fn lemma_written_by(record: Request)
    ensures
        written_by(record).finite(),
        written_by(record).len() == if record.direction == Direction::Write {
            record.length as int
        } else {
            0
        },
{
    if record.direction == Direction::Write {
        lemma_int_range(record.offset as int, record.offset + record.length);
        assert(written_by(record) =~= set_int_range(
            record.offset as int,
            record.offset + record.length,
        ));
    } else {
        assert(written_by(record) =~= Set::<int>::empty());
    }
}

/// One record more covers what the others cover and what it writes.
pub proof fn lemma_covered_push(records: Seq<Request>, record: Request)
    ensures
        covered(records.push(record)) == covered(records) + written_by(record),
{
    let more = records.push(record);
    assert forall|sector: int|
        covered(more).contains(sector) == (covered(records) + written_by(record)).contains(
            sector,
        ) by {
        if covered(more).contains(sector) {
            let i = choose|i: int| 0 <= i < more.len() && writes_to(#[trigger] more[i], sector);
            if i < records.len() {
                assert(more[i] == records[i]);
            }
        }
        if covered(records).contains(sector) {
            let i = choose|i: int|
                0 <= i < records.len() && writes_to(#[trigger] records[i], sector);
            assert(more[i] == records[i]);
        }
        if written_by(record).contains(sector) {
            assert(more[records.len() as int] == record);
        }
    }
    assert(covered(more) =~= covered(records) + written_by(record));
}

/// No write ends behind the reach of the trace.
pub proof fn lemma_reach(records: Seq<Request>, i: int)
    requires
        0 <= i < records.len(),
        records[i].direction == Direction::Write,
    ensures
        records[i].offset + records[i].length <= reach(records),
    decreases records.len(),
{
    if i < records.len() - 1 {
        lemma_reach(records.drop_last(), i);
    }
}

/// The start of a trace reaches no further and has no more volume than the
/// whole of it.
pub proof fn lemma_prefix(records: Seq<Request>, k: int)
    requires
        0 <= k <= records.len(),
    ensures
        reach(records.take(k)) <= reach(records),
        volume(records.take(k)) <= volume(records),
    decreases records.len() - k,
{
    if k == records.len() {
        assert(records.take(k) =~= records);
    } else {
        lemma_prefix(records.drop_last(), k);
        assert(records.drop_last().take(k) =~= records.take(k));
    }
}

/// The footprint is finite, no larger than the volume, and lies below the
/// reach of the trace.
pub proof fn lemma_footprint_at_most_volume(records: Seq<Request>)
    ensures
        covered(records).finite(),
        covered(records).len() <= volume(records),
        covered(records).subset_of(set_int_range(0, reach(records) as int)),
    decreases records.len(),
{
    if records.len() == 0 {
        assert(covered(records) =~= Set::<int>::empty());
    } else {
        let rest = records.drop_last();
        let last = records.last();
        lemma_footprint_at_most_volume(rest);
        lemma_written_by(last);
        assert(rest.push(last) =~= records);
        lemma_covered_push(rest, last);
        lemma_len_union(covered(rest), written_by(last));
        assert forall|sector: int| covered(records).contains(sector) implies set_int_range(
            0,
            reach(records) as int,
        ).contains(sector) by {
            let i = choose|i: int|
                0 <= i < records.len() && writes_to(#[trigger] records[i], sector);
            lemma_reach(records, i);
        }
    }
}

/// Counts the footprint and the volume of `records`, in sectors.
pub fn footprint_and_volume(records: &Vec<Request>) -> (counted: Result<(u64, u64), HMSimError>)
    ensures
        counted == analysis_of(records@),
        counted matches Ok(sizes) ==> sizes.0 <= sizes.1,
{
    let n = records.len();
    let mut extent: u64 = 0;
    let mut total: u64 = 0;
    let mut i: usize = 0;
    assert(records@.take(0) =~= Seq::<Request>::empty());
    while i < n
        invariant
            i <= n,
            n == records@.len(),
            extent == reach(records@.take(i as int)),
            total == volume(records@.take(i as int)),
        decreases n - i,
    {
        let record = records[i];
        proof {
            assert(records@.take(i + 1).drop_last() =~= records@.take(i as int));
            assert(records@.take(i + 1).last() == record);
            lemma_prefix(records@, i + 1);
        }
        if record.direction == Direction::Write {
            match record.offset.checked_add(record.length) {
                Some(end) => {
                    if end > extent {
                        extent = end;
                    }
                },
                None => {
                    return Err(HMSimError::ParseError);
                },
            }
        }
        match total.checked_add(record.length) {
            Some(sum) => {
                total = sum;
            },
            None => {
                return Err(HMSimError::ParseError);
            },
        }
        i += 1;
    }
    assert(records@.take(n as int) =~= records@);
    if extent / 64 >= usize::MAX as u64 {
        return Err(HMSimError::ParseError);
    }
    let mut bitmap = BitMapWrite::new(extent);
    let mut footprint: u64 = 0;
    let mut i: usize = 0;
    proof {
        assert(covered(records@.take(0)) =~= Set::<int>::empty());
    }
    while i < n
        invariant
            i <= n,
            n == records@.len(),
            extent == reach(records@),
            bitmap.capacity() >= extent,
            bitmap@ == covered(records@.take(i as int)),
            footprint == bitmap@.len(),
        decreases n - i,
    {
        let record = records[i];
        proof {
            assert(records@.take(i + 1) =~= records@.take(i as int).push(record));
            lemma_covered_push(records@.take(i as int), record);
            lemma_footprint_at_most_volume(records@.take(i + 1));
            lemma_prefix(records@, i + 1);
        }
        if record.direction == Direction::Write {
            proof {
                lemma_reach(records@, i as int);
            }
            let end = record.offset + record.length;
            let mut sector = record.offset;
            let ghost base = bitmap@;
            assert(bitmap@ =~= base + set_int_range(record.offset as int, sector as int));
            while sector < end
                invariant
                    record.offset <= sector <= end,
                    end == record.offset + record.length,
                    record.direction == Direction::Write,
                    end <= extent <= bitmap.capacity(),
                    bitmap@ == base + set_int_range(record.offset as int, sector as int),
                    (base + written_by(record)).subset_of(set_int_range(0, extent as int)),
                    footprint == bitmap@.len(),
                decreases end - sector,
            {
                let ghost seen = bitmap@;
                if !bitmap.test_bit(sector) {
                    proof {
                        bitmap.lemma_view_bounded();
                        lemma_int_range(0, extent as int);
                        assert(seen.insert(sector as int).subset_of(
                            set_int_range(0, extent as int),
                        )) by {
                            assert(written_by(record).contains(sector as int));
                            assert forall|other: int| seen.contains(other) implies (base
                                + written_by(record)).contains(other) by {
                                if !base.contains(other) {
                                    assert(written_by(record).contains(other));
                                }
                            }
                        }
                        lemma_len_subset(
                            seen.insert(sector as int),
                            set_int_range(0, extent as int),
                        );
                    }
                    footprint += 1;
                    bitmap.set_bit(sector);
                }
                sector += 1;
                assert(bitmap@ =~= base + set_int_range(record.offset as int, sector as int));
            }
            assert(set_int_range(record.offset as int, end as int) =~= written_by(record));
        } else {
            assert(written_by(record) =~= Set::<int>::empty());
            assert(bitmap@ =~= bitmap@ + written_by(record));
        }
        i += 1;
    }
    assert(records@.take(n as int) =~= records@);
    proof {
        lemma_footprint_at_most_volume(records@);
    }
    Ok((footprint, total))
}

/// The unit that a size is shown in: 0 for KB up to 4 for PB, the first in
/// which the size is less than 512.
pub open spec fn unit_index(sectors: nat) -> nat {
    if sectors < 0x400 {
        0
    } else if sectors < 0x10_0000 {
        1
    } else if sectors < 0x4000_0000 {
        2
    } else if sectors < 0x100_0000_0000 {
        3
    } else {
        4
    }
}

/// The sectors that one of a unit has.
pub open spec fn unit_sectors(index: nat) -> nat {
    if index == 0 {
        2
    } else if index == 1 {
        0x800
    } else if index == 2 {
        0x20_0000
    } else if index == 3 {
        0x8000_0000
    } else {
        0x200_0000_0000
    }
}

/// The name of a unit.
pub open spec fn unit_name(index: nat) -> Seq<char> {
    if index == 0 {
        seq!['K', 'B']
    } else if index == 1 {
        seq!['M', 'B']
    } else if index == 2 {
        seq!['G', 'B']
    } else if index == 3 {
        seq!['T', 'B']
    } else {
        seq!['P', 'B']
    }
}

/// `n / d` rounded to the nearest whole number, and to the even one of the
/// two where it lies in the middle.
pub open spec fn rounded(n: nat, d: nat) -> nat {
    let whole = n / d;
    let rest = n % d;
    if 2 * rest > d || (2 * rest == d && whole % 2 == 1) {
        whole + 1
    } else {
        whole
    }
}

/// A size in hundredths of its unit.
pub open spec fn hundredths(sectors: nat) -> nat {
    rounded(100 * sectors, unit_sectors(unit_index(sectors)))
}

/// A size as it is shown: in its unit, with two digits behind the point, the
/// name of the unit behind them.
pub open spec fn size_text(sectors: nat) -> Seq<char> {
    decimal_text(hundredths(sectors) / 100) + seq![
        '.',
        digit_char(hundredths(sectors) % 100 / 10),
        digit_char(hundredths(sectors) % 10),
    ] + unit_name(unit_index(sectors))
}

/// The sizes from which on no unit is large enough: 512 PB.
pub const SIZE_LIMIT: u64 = 0x4_0000_0000_0000;

fn size_string(sectors: u64) -> (text: String)
    requires
        sectors < SIZE_LIMIT,
    ensures
        text@ == size_text(sectors as nat),
{
    proof {
        reveal_strlit("KB");
        reveal_strlit("MB");
        reveal_strlit("GB");
        reveal_strlit("TB");
        reveal_strlit("PB");
        reveal_strlit(".");
    }
    let (divisor, name): (u64, &str) = if sectors < 0x400 {
        (2, "KB")
    } else if sectors < 0x10_0000 {
        (0x800, "MB")
    } else if sectors < 0x4000_0000 {
        (0x20_0000, "GB")
    } else if sectors < 0x100_0000_0000 {
        (0x8000_0000, "TB")
    } else {
        (0x200_0000_0000, "PB")
    };
    assert(divisor == unit_sectors(unit_index(sectors as nat)));
    assert(name@ =~= unit_name(unit_index(sectors as nat)));
    let scaled = sectors * 100;
    let whole = scaled / divisor;
    let rest = scaled % divisor;
    let shown = if rest * 2 > divisor || (rest * 2 == divisor && whole % 2 == 1) {
        whole + 1
    } else {
        whole
    };
    assert(shown == hundredths(sectors as nat));
    let mut text = String::new();
    push_decimal(&mut text, shown / 100);
    text.append(".");
    push_digit(&mut text, shown % 100 / 10);
    push_digit(&mut text, shown % 10);
    text.append(name);
    assert(text@ =~= size_text(sectors as nat));
    text
}

/// Shows a footprint and a volume, each in the largest unit from KB to PB in
/// which it is less than 512, with two digits behind the point.
pub fn convert_to_str(footprint: u64, volume: u64) -> (texts: (String, String))
    requires
        footprint < SIZE_LIMIT,
        volume < SIZE_LIMIT,
    ensures
        texts.0@ == size_text(footprint as nat),
        texts.1@ == size_text(volume as nat),
{
    (size_string(footprint), size_string(volume))
}

/// The bytes of each line.
pub open spec fn line_bytes(lines: Seq<String>) -> Seq<Seq<u8>> {
    Seq::new(lines.len(), |i: int| encode_utf8(lines[i]@))
}

/// The records that the lines of a trace say, where every line says one.
pub open spec fn records_of(lines: Seq<Seq<u8>>) -> Option<Seq<Request>> {
    if forall|i: int| 0 <= i < lines.len() ==> (#[trigger] parse_record_spec(lines[i])) is Ok {
        Some(Seq::new(lines.len(), |i: int| parse_record_spec(lines[i])->Ok_0))
    } else {
        None
    }
}

/// The footprint and the volume of the trace that `lines` hold, as they are
/// shown. A trace with a line that says no record, one that cannot be
/// counted, and one of 512 PB or more have none.
pub open spec fn report_of(lines: Seq<Seq<u8>>) -> Result<(Seq<char>, Seq<char>), HMSimError> {
    match records_of(lines) {
        Some(records) => match analysis_of(records) {
            Ok(counted) => if counted.1 < SIZE_LIMIT {
                Ok((size_text(counted.0 as nat), size_text(counted.1 as nat)))
            } else {
                Err(HMSimError::ParseError)
            },
            Err(refusal) => Err(refusal),
        },
        None => Err(HMSimError::ParseError),
    }
}

/// Whether `report` is what a run on `lines` returns.
pub open spec fn is_report(
    report: Result<(String, String), HMSimError>,
    lines: Seq<Seq<u8>>,
) -> bool {
    match report {
        Ok(texts) => report_of(lines) == Ok::<(Seq<char>, Seq<char>), HMSimError>(
            (texts.0@, texts.1@),
        ),
        Err(refusal) => report_of(lines) == Err::<(Seq<char>, Seq<char>), HMSimError>(refusal),
    }
}

/// Reads the lines of a trace, all or none.
pub fn read_trace(lines: &Vec<String>) -> (read: Result<Vec<Request>, HMSimError>)
    ensures
        match read {
            Ok(records) => records_of(line_bytes(lines@)) == Some(records@),
            Err(refusal) => refusal == HMSimError::ParseError && records_of(line_bytes(lines@))
                is None,
        },
{
    let n = lines.len();
    let mut records: Vec<Request> = Vec::new();
    let mut i: usize = 0;
    let ghost texts = line_bytes(lines@);
    while i < n
        invariant
            i <= n,
            n == lines@.len(),
            texts == line_bytes(lines@),
            records@.len() == i,
            forall|j: int|
                0 <= j < i ==> parse_record_spec(texts[j]) == Ok::<Request, HMSimError>(
                    #[trigger] records@[j],
                ),
        decreases n - i,
    {
        let line = lines[i].as_str().as_bytes();
        assert(line@ == texts[i as int]);
        match parse_record(line) {
            Ok(record) => {
                records.push(record);
            },
            Err(_) => {
                assert(!(parse_record_spec(texts[i as int]) is Ok));
                return Err(HMSimError::ParseError);
            },
        }
        i += 1;
    }
    proof {
        assert forall|j: int| 0 <= j < texts.len() implies (#[trigger] parse_record_spec(
            texts[j],
        )) is Ok by {
            assert(parse_record_spec(texts[j]) == Ok::<Request, HMSimError>(records@[j]));
        }
        assert(records_of(texts)->0 =~= records@);
    }
    Ok(records)
}

/// The footprint and the volume of the trace that `lines` hold, one record a
/// line, as they are shown.
pub fn trace_foot_size(lines: &Vec<String>) -> (report: Result<(String, String), HMSimError>)
    ensures
        is_report(report, line_bytes(lines@)),
{
    let records = match read_trace(lines) {
        Ok(records) => records,
        Err(refusal) => {
            return Err(refusal);
        },
    };
    let (footprint, volume) = match footprint_and_volume(&records) {
        Ok(counted) => counted,
        Err(refusal) => {
            return Err(refusal);
        },
    };
    if volume >= SIZE_LIMIT {
        return Err(HMSimError::ParseError);
    }
    proof {
        lemma_footprint_at_most_volume(records@);
    }
    Ok(convert_to_str(footprint, volume))
}

/// Reads do not count for the footprint, nor does a write of what is written
/// already.
pub proof fn lemma_footprint_unchanged(records: Seq<Request>, record: Request)
    requires
        record.direction == Direction::Read || written_by(record).subset_of(covered(records)),
    ensures
        covered(records.push(record)) == covered(records),
{
    lemma_covered_push(records, record);
    assert(covered(records) + written_by(record) =~= covered(records));
}

/// Whether no two records of `records` write the same sector.
pub open spec fn writes_apart(records: Seq<Request>) -> bool {
    forall|i: int, j: int|
        0 <= i < j < records.len() ==> (#[trigger] written_by(records[i])).disjoint(
            #[trigger] written_by(records[j]),
        )
}

/// Where a trace has writes only and no two of them write the same sector,
/// the footprint is the volume.
pub proof fn lemma_footprint_of_writes_apart(records: Seq<Request>)
    requires
        forall|i: int|
            0 <= i < records.len() ==> (#[trigger] records[i]).direction == Direction::Write,
        writes_apart(records),
    ensures
        covered(records).len() == volume(records),
    decreases records.len(),
{
    if records.len() == 0 {
        assert(covered(records) =~= Set::<int>::empty());
    } else {
        let rest = records.drop_last();
        let last = records.last();
        assert forall|i: int, j: int| 0 <= i < j < rest.len() implies (#[trigger] written_by(
            rest[i],
        )).disjoint(#[trigger] written_by(rest[j])) by {
            assert(rest[i] == records[i] && rest[j] == records[j]);
        }
        assert forall|i: int| 0 <= i < rest.len() implies (#[trigger] rest[i]).direction
            == Direction::Write by {
            assert(rest[i] == records[i]);
        }
        lemma_footprint_of_writes_apart(rest);
        lemma_footprint_at_most_volume(rest);
        lemma_written_by(last);
        assert(rest.push(last) =~= records);
        lemma_covered_push(rest, last);
        assert(covered(rest).disjoint(written_by(last))) by {
            assert forall|sector: int|
                !(covered(rest).contains(sector) && written_by(last).contains(sector)) by {
                if covered(rest).contains(sector) {
                    let i = choose|i: int|
                        0 <= i < rest.len() && writes_to(#[trigger] rest[i], sector);
                    assert(rest[i] == records[i]);
                    assert(written_by(records[i]).disjoint(
                        written_by(records[records.len() - 1]),
                    ));
                    assert(written_by(records[i]).contains(sector));
                }
            }
        }
        lemma_set_disjoint_lens(covered(rest), written_by(last));
    }
}

/// Two runs on the same lines return the same.
pub proof fn lemma_report_repeats(
    lines: Seq<Seq<u8>>,
    first: Result<(String, String), HMSimError>,
    second: Result<(String, String), HMSimError>,
)
    requires
        is_report(first, lines),
        is_report(second, lines),
    ensures
        first is Ok <==> second is Ok,
        first is Ok ==> first->Ok_0.0@ == second->Ok_0.0@ && first->Ok_0.1@ == second->Ok_0.1@,
        first is Err ==> first->Err_0 == second->Err_0,
{
}

} // verus!
