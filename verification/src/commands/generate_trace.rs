//! The requests of a trace that warms a cache up: a row of writes that fills
//! the cache, then requests anywhere on a tape. Offsets and lengths of the
//! requests on the tape are whole pages of 8 sectors.

use crate::record::{Direction, Request};
use vstd::prelude::*;

verus! {

/// The sectors of a write that fills the cache: 1 MB.
pub const FILL_STEP: u64 = 2048;

/// The sectors of a page.
pub const PAGE: u64 = 8;

/// The write with number `index` of the row that starts at `start`: each
/// write of the row starts where the one before it ends. There is none
/// where it would end behind sector `u64::MAX`.
pub open spec fn fill_request(start: u64, index: u64) -> Option<Request> {
    if start + (index + 1) * FILL_STEP <= u64::MAX {
        Some(
            Request {
                direction: Direction::Write,
                offset: (start + index * FILL_STEP) as u64,
                length: FILL_STEP,
            },
        )
    } else {
        None
    }
}

/// The write with number `index` of the row that starts at `start`.
pub fn generate_seq_trace(start: u64, index: u64) -> (request: Option<Request>)
    ensures
        request == fill_request(start, index),
{
    let offset = match index.checked_mul(FILL_STEP) {
        Some(distance) => match start.checked_add(distance) {
            Some(offset) => offset,
            None => {
                return None;
            },
        },
        None => {
            return None;
        },
    };
    if offset > u64::MAX - FILL_STEP {
        return None;
    }
    Some(Request { direction: Direction::Write, offset, length: FILL_STEP })
}

/// The request of `pages` pages at page `page` of a tape of `tape_pages`
/// pages, a write for a `coin` of 1 and a read for any other. There is none
/// where the request would end at the end of the tape or behind it.
pub open spec fn tape_request(tape_pages: u64, page: u64, coin: u64, pages: u64) -> Option<
    Request,
> {
    if page + pages < tape_pages && tape_pages * PAGE <= u64::MAX {
        Some(
            Request {
                direction: if coin == 1 {
                    Direction::Write
                } else {
                    Direction::Read
                },
                offset: (page * PAGE) as u64,
                length: (pages * PAGE) as u64,
            },
        )
    } else {
        None
    }
}

/// The request that the draws `page`, `coin` and `pages` make on a tape of
/// `tape_pages` pages, if it lies on the tape.
pub fn generate_rand_trace(tape_pages: u64, page: u64, coin: u64, pages: u64) -> (request: Option<
    Request,
>)
    ensures
        request == tape_request(tape_pages, page, coin, pages),
{
    if tape_pages > u64::MAX / PAGE {
        return None;
    }
    match page.checked_add(pages) {
        Some(end) => {
            if end >= tape_pages {
                return None;
            }
        },
        None => {
            return None;
        },
    }
    let direction = if coin == 1 {
        Direction::Write
    } else {
        Direction::Read
    };
    Some(Request { direction, offset: page * PAGE, length: pages * PAGE })
}

/// One step of the requests on a tape: the request that the draws make, if
/// it lies on the tape, and the budget of sectors that is left once its
/// length is taken off, none where the request uses the budget up or goes
/// beyond it. Draws that make no request leave the budget as it is.
pub fn tape_step(budget: u64, tape_pages: u64, page: u64, coin: u64, pages: u64) -> (step: (
    Option<Request>,
    u64,
))
    ensures
        step.0 == tape_request(tape_pages, page, coin, pages),
        step.1 == match step.0 {
            Some(request) => if request.length >= budget {
                0
            } else {
                (budget - request.length) as u64
            },
            None => budget,
        },
{
    match generate_rand_trace(tape_pages, page, coin, pages) {
        Some(request) => {
            let left = if request.length >= budget {
                0
            } else {
                budget - request.length
            };
            (Some(request), left)
        },
        None => (None, budget),
    }
}

} // verus!
