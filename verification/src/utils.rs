//! Sizes and ranges as they are written on a command line, and the
//! configuration of a run made of them.

use crate::commands::generate_tape_trace::{AddressOrder, TapeTrace};
use crate::error::HMSimError;
use crate::pattern::{captures, found_texts, pattern_groups, texts};
use crate::record::Dist;
use crate::text::{parse_u64, parse_u64_spec};
use crate::{HMSimBlock, SizePair};
use vstd::prelude::*;
use vstd::string::*;
use vstd::utf8::encode_utf8;

verus! {

/// The pattern of a size: digits, then letters.
pub open spec fn size_pattern() -> Seq<char> {
    "(\\d+)([A-Za-z]+)"@
}

/// The pattern of a range of sizes: two sizes with a dash between them.
pub open spec fn size_range_pattern() -> Seq<char> {
    "(\\d+[A-Za-z]+)-(\\d+[A-Za-z]+)"@
}

/// The pattern of a range of numbers: two rows of digits with a dash between
/// them.
pub open spec fn number_range_pattern() -> Seq<char> {
    "(\\d+)-(\\d+)"@
}

/// `b` with an ASCII capital letter made small.
pub open spec fn lower(b: u8) -> u8 {
    if 65 <= b <= 90 {
        (b + 32) as u8
    } else {
        b
    }
}

/// How many bytes one of `unit` has: 1 for `b`, 1024 for `k` or `kb`, and so
/// on by factors of 1024 for `m`, `g` and `t`, in capital or small letters.
/// `None` for any other unit.
pub open spec fn unit_factor(unit: Seq<u8>) -> Option<u64> {
    if unit.len() == 1 || (unit.len() == 2 && lower(unit[1]) == 98 && lower(unit[0]) != 98) {
        if lower(unit[0]) == 98 {
            Some(1)
        } else if lower(unit[0]) == 107 {
            Some(1024)
        } else if lower(unit[0]) == 109 {
            Some(1048576)
        } else if lower(unit[0]) == 103 {
            Some(1073741824)
        } else if lower(unit[0]) == 116 {
            Some(1099511627776)
        } else {
            None
        }
    } else {
        None
    }
}

/// The bytes of the size that `number` and `unit` write: their product where
/// both are read and it fits a `u64`.
pub open spec fn size_bytes(number: Seq<u8>, unit: Seq<u8>) -> Option<u64> {
    match (parse_u64_spec(number), unit_factor(unit)) {
        (Some(count), Some(factor)) => if count * factor <= u64::MAX {
            Some((count * factor) as u64)
        } else {
            None
        },
        _ => None,
    }
}

/// The two groups behind the whole match, where a search found the whole
/// match and just these two.
pub open spec fn two_groups(groups: Option<Seq<Option<Seq<char>>>>) -> Option<
    (Seq<char>, Seq<char>),
> {
    match groups {
        Some(found) => if found.len() == 3 {
            match (found[1], found[2]) {
                (Some(first), Some(second)) => Some((first, second)),
                _ => None,
            }
        } else {
            None
        },
        None => None,
    }
}

/// The bytes of the size that the groups of a search for a size write.
pub open spec fn groups_bytes(groups: Option<Seq<Option<Seq<char>>>>) -> Option<u64> {
    match two_groups(groups) {
        Some(parts) => size_bytes(encode_utf8(parts.0), encode_utf8(parts.1)),
        None => None,
    }
}

/// The bytes of the size that `text` writes: those of the first size that a
/// search of `text` finds.
pub open spec fn text_bytes(text: Seq<char>) -> Option<u64> {
    groups_bytes(pattern_groups(size_pattern(), text))
}

/// Whether `parsed` is the outcome of reading a size written as `text` that
/// has `bytes` bytes, or none: the block keeps the text, the bytes, and the
/// sectors that the bytes fill.
pub open spec fn is_size(
    parsed: Result<HMSimBlock, HMSimError>,
    text: Seq<char>,
    bytes: Option<u64>,
) -> bool {
    match parsed {
        Ok(block) => {
            &&& bytes == Some(block.byte)
            &&& block.block == block.byte / 512
            &&& block.size_in_string@ == text
        },
        Err(refusal) => refusal == HMSimError::ParseError && bytes is None,
    }
}

fn lowered(b: u8) -> (small: u8)
    ensures
        small == lower(b),
{
    if 65 <= b && b <= 90 {
        b + 32
    } else {
        b
    }
}

fn factor_of(unit: &[u8]) -> (factor: Option<u64>)
    ensures
        factor == unit_factor(unit@),
{
    let n = unit.len();
    if n == 0 || n > 2 {
        return None;
    }
    let first = lowered(unit[0]);
    if n == 2 && (lowered(unit[1]) != 98 || first == 98) {
        return None;
    }
    if first == 98 {
        Some(1)
    } else if first == 107 {
        Some(1024)
    } else if first == 109 {
        Some(1048576)
    } else if first == 103 {
        Some(1073741824)
    } else if first == 116 {
        Some(1099511627776)
    } else {
        None
    }
}

/// The size that `number` and `unit` write, with `size` kept as its text.
pub fn block_from_parts(size: &str, number: &str, unit: &str) -> (parsed: Result<
    HMSimBlock,
    HMSimError,
>)
    ensures
        is_size(parsed, size@, size_bytes(encode_utf8(number@), encode_utf8(unit@))),
{
    let count = parse_u64(number.as_bytes());
    let factor = factor_of(unit.as_bytes());
    match (count, factor) {
        (Some(count), Some(factor)) => match count.checked_mul(factor) {
            Some(byte) => Ok(
                HMSimBlock { size_in_string: size.to_owned(), byte, block: byte / 512 },
            ),
            None => Err(HMSimError::ParseError),
        },
        _ => Err(HMSimError::ParseError),
    }
}

fn pick_two(groups: &Option<Vec<Option<String>>>) -> (parts: Option<(&str, &str)>)
    ensures
        match parts {
            Some(picked) => two_groups(found_texts(*groups)) == Some((picked.0@, picked.1@)),
            None => two_groups(found_texts(*groups)) is None,
        },
{
    match groups {
        Some(found) => {
            if found.len() == 3 {
                assert(texts(found@)[1] == match found[1] {
                    Some(group) => Some(group@),
                    None => None,
                });
                assert(texts(found@)[2] == match found[2] {
                    Some(group) => Some(group@),
                    None => None,
                });
                match (&found[1], &found[2]) {
                    (Some(first), Some(second)) => Some((first.as_str(), second.as_str())),
                    _ => None,
                }
            } else {
                None
            }
        },
        None => None,
    }
}

/// The size that the groups of a search for a size in `size` write.
pub fn block_from_groups(size: &str, groups: &Option<Vec<Option<String>>>) -> (parsed: Result<
    HMSimBlock,
    HMSimError,
>)
    ensures
        is_size(parsed, size@, groups_bytes(found_texts(*groups))),
{
    match pick_two(groups) {
        Some((number, unit)) => block_from_parts(size, number, unit),
        None => Err(HMSimError::ParseError),
    }
}

fn unit_parse(size: &str) -> (parsed: Result<HMSimBlock, HMSimError>)
    ensures
        is_size(parsed, size@, text_bytes(size@)),
{
    let groups = captures("(\\d+)([A-Za-z]+)", size);
    block_from_groups(size, &groups)
}

/// Reads a size such as `12M`: a number and a unit, `b`, `k`, `m`, `g` or
/// `t`, with or without a `b` behind it, in capital or small letters.
pub fn string_to_hmsim_block(size: &str) -> (parsed: Result<HMSimBlock, HMSimError>)
    ensures
        is_size(parsed, size@, text_bytes(size@)),
{
    unit_parse(size)
}

/// The two numbers that the groups of a search for a range of numbers write.
pub open spec fn groups_numbers(groups: Option<Seq<Option<Seq<char>>>>) -> Option<(u64, u64)> {
    match two_groups(groups) {
        Some(parts) => match (
            parse_u64_spec(encode_utf8(parts.0)),
            parse_u64_spec(encode_utf8(parts.1)),
        ) {
            (Some(first), Some(second)) => Some((first, second)),
            _ => None,
        },
        None => None,
    }
}

/// The outcome of reading what ought to write `numbers`.
pub open spec fn read_numbers(numbers: Option<(u64, u64)>) -> Result<(u64, u64), HMSimError> {
    match numbers {
        Some(pair) => Ok(pair),
        None => Err(HMSimError::ParseError),
    }
}

/// The two numbers that the groups of a search for a range of numbers write.
pub fn numbers_from_groups(groups: &Option<Vec<Option<String>>>) -> (parsed: Result<
    (u64, u64),
    HMSimError,
>)
    ensures
        parsed == read_numbers(groups_numbers(found_texts(*groups))),
{
    match pick_two(groups) {
        Some((first, second)) => match (parse_u64(first.as_bytes()), parse_u64(second.as_bytes())) {
            (Some(first), Some(second)) => Ok((first, second)),
            _ => Err(HMSimError::ParseError),
        },
        None => Err(HMSimError::ParseError),
    }
}

fn parse_dash_num(size: &str) -> (parsed: Result<(u64, u64), HMSimError>)
    ensures
        parsed == read_numbers(groups_numbers(pattern_groups(number_range_pattern(), size@))),
{
    let groups = captures("(\\d+)-(\\d+)", size);
    numbers_from_groups(&groups)
}

/// Reads a range of numbers such as `5-15`.
pub fn range_to_num(size: &str) -> (parsed: Result<(u64, u64), HMSimError>)
    ensures
        parsed == read_numbers(groups_numbers(pattern_groups(number_range_pattern(), size@))),
{
    parse_dash_num(size)
}

/// The bytes of the two sizes that the groups of a search for a range of
/// sizes write, where both can be read.
pub open spec fn groups_range(groups: Option<Seq<Option<Seq<char>>>>) -> Option<(u64, u64)> {
    match two_groups(groups) {
        Some(parts) => match (text_bytes(parts.0), text_bytes(parts.1)) {
            (Some(begin), Some(end)) => Some((begin, end)),
            _ => None,
        },
        None => None,
    }
}

/// Whether `parsed` is the outcome of reading a range of sizes of which a
/// search found `groups`: each size is read from its group.
pub open spec fn is_size_range(
    parsed: Result<SizePair, HMSimError>,
    groups: Option<Seq<Option<Seq<char>>>>,
) -> bool {
    match parsed {
        Ok(pair) => {
            &&& groups_range(groups) == Some((pair.size_begin.byte, pair.size_end.byte))
            &&& pair.size_begin.block == pair.size_begin.byte / 512
            &&& pair.size_end.block == pair.size_end.byte / 512
            &&& two_groups(groups) == Some(
                (pair.size_begin.size_in_string@, pair.size_end.size_in_string@),
            )
        },
        Err(refusal) => refusal == HMSimError::ParseError && groups_range(groups) is None,
    }
}

/// The range of sizes that the groups of a search for one write.
pub fn pair_from_groups(groups: &Option<Vec<Option<String>>>) -> (parsed: Result<
    SizePair,
    HMSimError,
>)
    ensures
        is_size_range(parsed, found_texts(*groups)),
{
    match pick_two(groups) {
        Some((begin, end)) => {
            let size_begin = match unit_parse(begin) {
                Ok(block) => block,
                Err(_) => {
                    return Err(HMSimError::ParseError);
                },
            };
            let size_end = match unit_parse(end) {
                Ok(block) => block,
                Err(_) => {
                    return Err(HMSimError::ParseError);
                },
            };
            Ok(SizePair { size_begin, size_end })
        },
        None => Err(HMSimError::ParseError),
    }
}

fn parse_dash(size: &str) -> (parsed: Result<SizePair, HMSimError>)
    ensures
        is_size_range(parsed, pattern_groups(size_range_pattern(), size@)),
{
    let groups = captures("(\\d+[A-Za-z]+)-(\\d+[A-Za-z]+)", size);
    pair_from_groups(&groups)
}

/// Reads a range of sizes such as `1G-32G`.
pub fn size_range_to_start_end(size: &str) -> (parsed: Result<SizePair, HMSimError>)
    ensures
        is_size_range(parsed, pattern_groups(size_range_pattern(), size@)),
{
    parse_dash(size)
}

/// Whether a range, where one is given, starts no later than it ends.
pub open spec fn ordered(range: Option<(u64, u64)>) -> bool {
    match range {
        Some(ends) => ends.0 <= ends.1,
        None => true,
    }
}

/// Where a range starts; 0 where none is given.
pub open spec fn range_start(range: Option<(u64, u64)>) -> u64 {
    match range {
        Some(ends) => ends.0,
        None => 0,
    }
}

/// Where a range ends; 0 where none is given.
pub open spec fn range_end(range: Option<(u64, u64)>) -> u64 {
    match range {
        Some(ends) => ends.1,
        None => 0,
    }
}

/// How far the end of a range lies behind its start; 0 where none is given.
pub open spec fn range_width(range: Option<(u64, u64)>) -> int {
    match range {
        Some(ends) => ends.1 - ends.0,
        None => 0,
    }
}

/// The configuration that the arguments of a generation make: the sizes in
/// sectors, and each range with its start, its end and its width. Whatever
/// has no argument is as in a blank configuration.
pub open spec fn is_configuration(
    trace: TapeTrace,
    total_size: HMSimBlock,
    block_size: HMSimBlock,
    write_size: Option<(u64, u64)>,
    read_size: Option<(u64, u64)>,
    rwsize: Option<(u64, u64)>,
    batch: Option<String>,
    batch_iow_num: Option<(u64, u64)>,
    batch_ior_num: Option<(u64, u64)>,
) -> bool {
    &&& trace.total_size == total_size.block
    &&& trace.block_size == block_size.block
    &&& trace.write_size_start == range_start(write_size)
    &&& trace.write_size_end == range_end(write_size)
    &&& trace.write_size_range == range_width(write_size)
    &&& trace.read_size_start == range_start(read_size)
    &&& trace.read_size_end == range_end(read_size)
    &&& trace.read_size_range == range_width(read_size)
    &&& trace.rwsize_start == range_start(rwsize)
    &&& trace.rwsize_end == range_end(rwsize)
    &&& trace.rwsize_range == range_width(rwsize)
    &&& trace.batch_iow_num_begin == range_start(batch_iow_num)
    &&& trace.batch_iow_num_end == range_end(batch_iow_num)
    &&& trace.batch_iow_num_range == range_width(batch_iow_num)
    &&& trace.batch_ior_num_begin == range_start(batch_ior_num)
    &&& trace.batch_ior_num_end == range_end(batch_ior_num)
    &&& trace.batch_ior_num_range == range_width(batch_ior_num)
    &&& trace.batch@ == match batch {
        Some(letters) => letters@,
        None => Seq::<char>::empty(),
    }
    &&& trace.dist == Dist::Unset
    &&& trace.length_dist == Dist::Unset
    &&& trace.read_order == AddressOrder::Random
    &&& trace.initial_frontier == 0
}

fn ends_of(range: Option<(u64, u64)>) -> (ends: Option<(u64, u64, u64)>)
    ensures
        ends is Some <==> ordered(range),
        ends matches Some(found) ==> found.0 == range_start(range) && found.1 == range_end(range)
            && found.2 == range_width(range),
{
    match range {
        Some((start, end)) => {
            if start <= end {
                Some((start, end, end - start))
            } else {
                None
            }
        },
        None => Some((0, 0, 0)),
    }
}

/// Makes the configuration of a generation from its arguments. A range that
/// ends before it starts is refused.
pub fn command_gen_tape_trace_to_tape_trace_struct(
    total_size: HMSimBlock,
    block_size: HMSimBlock,
    write_size: Option<(u64, u64)>,
    read_size: Option<(u64, u64)>,
    rwsize: Option<(u64, u64)>,
    batch: Option<String>,
    batch_iow_num: Option<(u64, u64)>,
    batch_ior_num: Option<(u64, u64)>,
) -> (built: Result<TapeTrace, HMSimError>)
    ensures
        built is Ok <==> ordered(write_size) && ordered(read_size) && ordered(rwsize) && ordered(
            batch_iow_num,
        ) && ordered(batch_ior_num),
        built matches Ok(trace) ==> is_configuration(
            trace,
            total_size,
            block_size,
            write_size,
            read_size,
            rwsize,
            batch,
            batch_iow_num,
            batch_ior_num,
        ),
        built matches Err(refusal) ==> refusal == HMSimError::CommandError,
{
    let mut tape_trace = TapeTrace::new();
    tape_trace.total_size = total_size.block;
    tape_trace.block_size = block_size.block;
    match ends_of(write_size) {
        Some((start, end, width)) => {
            tape_trace.write_size_start = start;
            tape_trace.write_size_end = end;
            tape_trace.write_size_range = width;
        },
        None => {
            return Err(HMSimError::CommandError);
        },
    }
    match ends_of(read_size) {
        Some((start, end, width)) => {
            tape_trace.read_size_start = start;
            tape_trace.read_size_end = end;
            tape_trace.read_size_range = width;
        },
        None => {
            return Err(HMSimError::CommandError);
        },
    }
    match ends_of(rwsize) {
        Some((start, end, width)) => {
            tape_trace.rwsize_start = start;
            tape_trace.rwsize_end = end;
            tape_trace.rwsize_range = width;
        },
        None => {
            return Err(HMSimError::CommandError);
        },
    }
    match ends_of(batch_iow_num) {
        Some((start, end, width)) => {
            tape_trace.batch_iow_num_begin = start;
            tape_trace.batch_iow_num_end = end;
            tape_trace.batch_iow_num_range = width;
        },
        None => {
            return Err(HMSimError::CommandError);
        },
    }
    match ends_of(batch_ior_num) {
        Some((start, end, width)) => {
            tape_trace.batch_ior_num_begin = start;
            tape_trace.batch_ior_num_end = end;
            tape_trace.batch_ior_num_range = width;
        },
        None => {
            return Err(HMSimError::CommandError);
        },
    }
    if let Some(letters) = batch {
        tape_trace.batch = letters;
    }
    Ok(tape_trace)
}

} // verus!
