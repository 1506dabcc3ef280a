//! Records of a vendor trace, which counts in bytes, as requests of a trace,
//! which counts in sectors.

use crate::error::HMSimError;
use crate::record::{Direction, Request};
use crate::text::{parse_u64, parse_u64_spec};
use vstd::prelude::*;
use vstd::string::*;
use vstd::utf8::encode_utf8;

verus! {

/// The direction that the type field of a vendor record names: `Read` or
/// `Write`.
pub open spec fn kind_direction(kind: Seq<u8>) -> Option<Direction> {
    if kind =~= seq![82u8, 101u8, 97u8, 100u8] {
        Some(Direction::Read)
    } else if kind =~= seq![87u8, 114u8, 105u8, 116u8, 101u8] {
        Some(Direction::Write)
    } else {
        None
    }
}

/// The request that a vendor record with these three fields stands for: the
/// sectors that its offset and its length fill. A record whose type is
/// neither `Read` nor `Write`, or whose offset or length cannot be read as a
/// number, is malformed.
pub open spec fn origin_request(kind: Seq<u8>, offset: Seq<u8>, length: Seq<u8>) -> Result<
    Request,
    HMSimError,
> {
    match kind_direction(kind) {
        None => Err(HMSimError::ParseError),
        Some(direction) => match (parse_u64_spec(offset), parse_u64_spec(length)) {
            (Some(offset), Some(length)) => Ok(
                Request { direction, offset: offset / 512, length: length / 512 },
            ),
            _ => Err(HMSimError::ParseError),
        },
    }
}

fn read_kind(kind: &[u8]) -> (direction: Option<Direction>)
    ensures
        direction == kind_direction(kind@),
{
    if kind.len() == 4 && kind[0] == 82 && kind[1] == 101 && kind[2] == 97 && kind[3] == 100 {
        Some(Direction::Read)
    } else if kind.len() == 5 && kind[0] == 87 && kind[1] == 114 && kind[2] == 105 && kind[3]
        == 116 && kind[4] == 101 {
        Some(Direction::Write)
    } else {
        None
    }
}

/// Converts one vendor record, given its type, its offset and its length as
/// they stand in the record.
pub fn origin_to_sim(kind: &str, offset: &str, length: &str) -> (converted: Result<
    Request,
    HMSimError,
>)
    ensures
        converted == origin_request(encode_utf8(kind@), encode_utf8(offset@), encode_utf8(length@)),
{
    let direction = match read_kind(kind.as_bytes()) {
        Some(direction) => direction,
        None => {
            return Err(HMSimError::ParseError);
        },
    };
    match (parse_u64(offset.as_bytes()), parse_u64(length.as_bytes())) {
        (Some(offset), Some(length)) => Ok(
            Request { direction, offset: offset / 512, length: length / 512 },
        ),
        _ => Err(HMSimError::ParseError),
    }
}

/// The name of the file that the converted trace goes to: the stem of the
/// name of the vendor trace, with `.trace` behind it.
pub fn trace_file_name(stem: &str) -> (name: String)
    ensures
        name@ == stem@ + seq!['.', 't', 'r', 'a', 'c', 'e'],
{
    proof {
        reveal_strlit(".trace");
    }
    let mut name = stem.to_owned();
    name.append(".trace");
    assert(name@ =~= stem@ + seq!['.', 't', 'r', 'a', 'c', 'e']);
    name
}

} // verus!
