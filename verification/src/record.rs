//! The records of a trace: one request a line, six fields a line.
//!
//! `<R|W> Hit <offset> <length> 0.000000 <interval>`

use crate::error::HMSimError;
use crate::text::{
    ascii_bytes, contents, decimal_text, lemma_decimal_reads_back, lemma_split_fields_concat,
    lemma_split_fields_one, parse_u64, parse_u64_spec, push_decimal, split, split_fields,
};
use vstd::prelude::*;
use vstd::string::*;
use vstd::utf8::{encode_utf8, is_ascii_chars, is_ascii_chars_encode_utf8};

verus! {

/// Whether a request reads or writes.
#[derive(Debug, Clone, Copy, PartialEq, Eq, Structural)]
pub enum Direction {
    Read,
    Write,
}

/// One request of a trace, offset and length in sectors.
#[derive(Debug, Clone, Copy, PartialEq, Eq, Structural)]
pub struct Request {
    pub direction: Direction,
    pub offset: u64,
    pub length: u64,
}

/// The distribution that the time between two requests, or the length of a
/// request, follows. The rate of an exponential distribution stays with
/// whoever draws the samples.
#[derive(Debug, Clone, Copy, PartialEq, Eq, Structural)]
pub enum Dist {
    Unset,
    Exponential,
}

impl Direction {
    /// The first field of a record.
    pub open spec fn letter(self) -> char {
        match self {
            Direction::Read => 'R',
            Direction::Write => 'W',
        }
    }
}

/// The service time of every record, and the interval of a record where no
/// distribution is set: `0.000000`.
pub open spec fn placeholder() -> Seq<char> {
    seq!['0', '.', '0', '0', '0', '0', '0', '0']
}

/// The last field of a record: the placeholder, or the first eight
/// characters of the sample drawn for it.
pub open spec fn interval_text(dist: Dist, sample: Seq<char>) -> Seq<char> {
    match dist {
        Dist::Unset => placeholder(),
        Dist::Exponential => if sample.len() <= 8 {
            sample
        } else {
            sample.take(8)
        },
    }
}

/// The interval field for `sample`, the decimal text of a number drawn from
/// `dist`.
pub fn interval_field(dist: Dist, sample: &str) -> (field: String)
    ensures
        field@ == interval_text(dist, sample@),
{
    match dist {
        Dist::Unset => {
            proof {
                reveal_strlit("0.000000");
                assert("0.000000"@ =~= placeholder());
            }
            "0.000000".to_owned()
        },
        Dist::Exponential => {
            let n = sample.unicode_len();
            if n <= 8 {
                sample.to_owned()
            } else {
                sample.substring_char(0, 8).to_owned()
            }
        },
    }
}

/// The line of a record.
pub open spec fn line_text(request: Request, interval: Seq<char>) -> Seq<char> {
    seq![request.direction.letter(), ' ', 'H', 'i', 't', ' '] + decimal_text(request.offset as nat)
        + seq![' '] + decimal_text(request.length as nat) + seq![' '] + placeholder() + seq![' ']
        + interval
}

impl Request {
    /// The record of the request, without a line end.
    pub fn line(&self, interval: &str) -> (text: String)
        ensures
            text@ == line_text(*self, interval@),
    {
        proof {
            reveal_strlit("R Hit ");
            reveal_strlit("W Hit ");
            reveal_strlit(" ");
            reveal_strlit(" 0.000000 ");
        }
        let mut text = match self.direction {
            Direction::Read => "R Hit ".to_owned(),
            Direction::Write => "W Hit ".to_owned(),
        };
        push_decimal(&mut text, self.offset);
        text.append(" ");
        push_decimal(&mut text, self.length);
        text.append(" 0.000000 ");
        text.append(interval);
        assert(text@ =~= line_text(*self, interval@));
        text
    }
}

/// The record of `request`, its interval taken from `sample` as `dist` asks.
pub fn emit(request: &Request, dist: Dist, sample: &str) -> (text: String)
    ensures
        text@ == line_text(*request, interval_text(dist, sample@)),
{
    let interval = interval_field(dist, sample);
    request.line(interval.as_str())
}

/// The direction that the first field of a record names.
pub open spec fn direction_of(field: Seq<u8>) -> Option<Direction> {
    if field =~= seq![82u8] {
        Some(Direction::Read)
    } else if field =~= seq![87u8] {
        Some(Direction::Write)
    } else {
        None
    }
}

/// What a line of a trace says: six fields between single spaces, the first
/// `R` or `W`, the third and fourth the offset and the length. The other
/// three are not looked at.
pub open spec fn parse_record_spec(line: Seq<u8>) -> Result<Request, HMSimError> {
    let fields = split_fields(line, 32);
    if fields.len() != 6 {
        Err(HMSimError::ParseError)
    } else {
        match (direction_of(fields[0]), parse_u64_spec(fields[2]), parse_u64_spec(fields[3])) {
            (Some(direction), Some(offset), Some(length)) => Ok(
                Request { direction, offset, length },
            ),
            _ => Err(HMSimError::ParseError),
        }
    }
}

fn read_direction(field: &Vec<u8>) -> (direction: Option<Direction>)
    ensures
        direction == direction_of(field@),
{
    if field.len() != 1 {
        None
    } else if field[0] == 82 {
        Some(Direction::Read)
    } else if field[0] == 87 {
        Some(Direction::Write)
    } else {
        None
    }
}

/// Reads one line of a trace.
pub fn parse_record(line: &[u8]) -> (record: Result<Request, HMSimError>)
    ensures
        record == parse_record_spec(line@),
{
    let fields = split(line, 32);
    assert(contents(fields@).len() == fields.len());
    if fields.len() != 6 {
        return Err(HMSimError::ParseError);
    }
    assert(contents(fields@)[0] == fields[0]@);
    assert(contents(fields@)[2] == fields[2]@);
    assert(contents(fields@)[3] == fields[3]@);
    let direction = read_direction(&fields[0]);
    let offset = parse_u64(fields[2].as_slice());
    let length = parse_u64(fields[3].as_slice());
    match (direction, offset, length) {
        (Some(direction), Some(offset), Some(length)) => Ok(Request { direction, offset, length }),
        _ => Err(HMSimError::ParseError),
    }
}

/// The sum of the lengths of `requests`.
pub open spec fn volume(requests: Seq<Request>) -> nat
    decreases requests.len(),
{
    if requests.len() == 0 {
        0
    } else {
        volume(requests.drop_last()) + requests.last().length as nat
    }
}

/// The lengths of two rows of requests add up.
pub proof fn lemma_volume_concat(a: Seq<Request>, b: Seq<Request>)
    ensures
        volume(a + b) == volume(a) + volume(b),
    decreases b.len(),
{
    if b.len() == 0 {
        assert(a + b =~= a);
    } else {
        lemma_volume_concat(a, b.drop_last());
        assert((a + b).drop_last() =~= a + b.drop_last());
    }
}

/// No request is longer than all of them together.
pub proof fn lemma_volume_at_least(requests: Seq<Request>, i: int)
    requires
        0 <= i < requests.len(),
    ensures
        volume(requests) >= requests[i].length,
    decreases requests.len(),
{
    if i < requests.len() - 1 {
        lemma_volume_at_least(requests.drop_last(), i);
    }
}

/// A record that is written reads back as the request that it was written
/// for, whatever its interval, as long as the interval is ASCII text without
/// a space.
pub proof fn lemma_line_reads_back(request: Request, interval: Seq<char>)
    requires
        is_ascii_chars(interval),
        !interval.contains(' '),
    ensures
        parse_record_spec(encode_utf8(line_text(request, interval))) == Ok::<Request, HMSimError>(
            request,
        ),
{
    let line = line_text(request, interval);
    let offset = decimal_text(request.offset as nat);
    let length = decimal_text(request.length as nat);
    lemma_decimal_reads_back(request.offset);
    lemma_decimal_reads_back(request.length);
    assert(is_ascii_chars(line));
    is_ascii_chars_encode_utf8(line);
    let bytes = encode_utf8(line);
    assert(bytes =~= ascii_bytes(line));
    let letter = seq![request.direction.letter() as u8];
    let tag = seq![72u8, 105u8, 116u8];
    let first = ascii_bytes(offset);
    let second = ascii_bytes(length);
    let service = ascii_bytes(placeholder());
    let last = ascii_bytes(interval);
    let space = seq![32u8];
    let one = letter;
    let two = one + space + tag;
    let three = two + space + first;
    let four = three + space + second;
    let five = four + space + service;
    assert(bytes =~= five + space + last);
    assert(!last.contains(32u8)) by {
        if last.contains(32u8) {
            let i = choose|i: int| 0 <= i < last.len() && last[i] == 32u8;
            assert(interval[i] == ' ');
            assert(interval.contains(interval[i]));
        }
    }
    assert(!service.contains(32u8));
    assert(!second.contains(32u8));
    assert(!first.contains(32u8));
    assert(!tag.contains(32u8));
    assert(!letter.contains(32u8));
    lemma_split_fields_one(last, 32);
    lemma_split_fields_one(service, 32);
    lemma_split_fields_one(second, 32);
    lemma_split_fields_one(first, 32);
    lemma_split_fields_one(tag, 32);
    lemma_split_fields_one(letter, 32);
    lemma_split_fields_concat(five, last, 32);
    lemma_split_fields_concat(four, service, 32);
    lemma_split_fields_concat(three, second, 32);
    lemma_split_fields_concat(two, first, 32);
    lemma_split_fields_concat(one, tag, 32);
    let fields = split_fields(bytes, 32);
    assert(fields =~= seq![letter, tag, first, second, service, last]);
    assert(direction_of(fields[0]) == Some(request.direction));
}

} // verus!
