//! Synthesis of a tape workload: requests are drawn until their lengths use
//! up a budget of sectors. Writes go to the write frontier, one behind the
//! other; reads go to what has been written.

use crate::error::HMSimError;
use crate::random::uniform_inclusive;
use crate::record::{lemma_volume_at_least, lemma_volume_concat, volume, Direction, Dist, Request};
use crate::text::has_char;
use rand::rngs::StdRng;
use vstd::arithmetic::div_mod::lemma_mod_multiples_vanish;
use vstd::prelude::*;

verus! {

/// Which directions a run issues.
#[derive(Debug, Clone, Copy, PartialEq, Eq, Structural)]
pub enum DirectionMode {
    ReadOnly,
    WriteOnly,
    Mixed,
}

/// How the offsets of reads are chosen.
#[derive(Debug, Clone, Copy, PartialEq, Eq, Structural)]
pub enum AddressOrder {
    /// One read behind the other, from sector 0.
    Sequential,
    /// Anywhere in what has been written.
    Random,
}

/// The configuration of one generation run. Sizes of requests are counted in
/// blocks of `block_size` sectors, everything else in sectors.
#[derive(Debug, Clone)]
pub struct TapeTrace {
    pub total_size: u64,
    pub block_size: u64,
    pub write_size_start: u64,
    pub write_size_end: u64,
    pub write_size_range: u64,
    pub read_size_start: u64,
    pub read_size_end: u64,
    pub read_size_range: u64,
    pub rwsize_start: u64,
    pub rwsize_end: u64,
    pub rwsize_range: u64,
    /// Holds `r` where reads come in batches, `w` where writes do.
    pub batch: String,
    pub batch_iow_num_begin: u64,
    pub batch_iow_num_end: u64,
    pub batch_iow_num_range: u64,
    pub batch_ior_num_begin: u64,
    pub batch_ior_num_end: u64,
    pub batch_ior_num_range: u64,
    /// The distribution of the time between two requests.
    pub dist: Dist,
    /// The distribution of the length of a request; where none is set, the
    /// sizes are drawn from their ranges.
    pub length_dist: Dist,
    pub read_order: AddressOrder,
    /// What was written before the run; only a run of reads has any.
    pub initial_frontier: u64,
}

/// Where the next requests go.
#[derive(Debug, Clone, Copy, PartialEq, Eq, Structural)]
pub struct AddressCursor {
    pub total_size: u64,
    pub block_size: u64,
    /// The sectors below it are written.
    pub write_frontier: u64,
    /// Where the next sequential read starts.
    pub read_frontier: u64,
}

/// The smaller of two numbers.
pub open spec fn least(a: int, b: int) -> int {
    if a <= b {
        a
    } else {
        b
    }
}

/// `n`, or `u64::MAX` where `n` is larger.
pub open spec fn saturated(n: nat) -> u64 {
    if n > u64::MAX {
        u64::MAX
    } else {
        n as u64
    }
}

/// Whether every request of `requests` has direction `direction`.
pub open spec fn all_direction(requests: Seq<Request>, direction: Direction) -> bool {
    forall|i: int| 0 <= i < requests.len() ==> (#[trigger] requests[i]).direction == direction
}

/// The length of a request for a length of `sample` sectors drawn from a
/// distribution: the whole blocks of the sample. It is 0 where the sample is
/// less than a block.
pub fn sampled_length(sample: u64, block_size: u64) -> (length: u64)
    requires
        block_size > 0,
    ensures
        length == sample / block_size * block_size,
        length <= sample,
        length == 0 <==> sample < block_size,
{
    let units = sample / block_size;
    assert(units * block_size <= sample && (units * block_size == 0 <==> sample < block_size))
        by (nonlinear_arith)
        requires
            units == sample / block_size,
            block_size > 0,
    ;
    units * block_size
}

/// The budget that is left once a batch of `emitted` sectors is taken off
/// it: none where the batch uses it up or goes beyond it.
pub fn consume(budget: u64, emitted: u64) -> (left: u64)
    ensures
        left == if emitted >= budget {
            0
        } else {
            budget - emitted
        },
{
    if budget <= emitted {
        0
    } else {
        budget - emitted
    }
}

/// What becomes of the count of batches in a row that issued no request
/// when one more issues none: it goes up by one, unless it has reached
/// `patience`, where the run ends as one whose configuration does not suit.
pub fn idle_step(idle: u64, patience: u64) -> (next: Result<u64, HMSimError>)
    ensures
        idle < patience ==> next == Ok::<u64, HMSimError>((idle + 1) as u64),
        idle >= patience ==> next == Err::<u64, HMSimError>(HMSimError::CommandError),
{
    if idle < patience {
        Ok(idle + 1)
    } else {
        Err(HMSimError::CommandError)
    }
}

/// The mode that the letters of a command line name: `r` for reads only, `w`
/// for writes only, `rw` for both.
pub open spec fn mode_of_letters(letters: Seq<char>) -> Option<DirectionMode> {
    if letters =~= seq!['r'] {
        Some(DirectionMode::ReadOnly)
    } else if letters =~= seq!['w'] {
        Some(DirectionMode::WriteOnly)
    } else if letters =~= seq!['r', 'w'] {
        Some(DirectionMode::Mixed)
    } else {
        None
    }
}

/// Reads the mode of a run; any text but `r`, `w` and `rw` names none.
pub fn direction_mode_of(letters: &str) -> (mode: Result<DirectionMode, HMSimError>)
    ensures
        match mode {
            Ok(named) => mode_of_letters(letters@) == Some(named),
            Err(refusal) => refusal == HMSimError::CommandError && mode_of_letters(letters@)
                is None,
        },
{
    let n = letters.unicode_len();
    if n == 1 {
        let only = letters.get_char(0);
        if only == 'r' {
            return Ok(DirectionMode::ReadOnly);
        } else if only == 'w' {
            return Ok(DirectionMode::WriteOnly);
        }
    } else if n == 2 {
        if letters.get_char(0) == 'r' && letters.get_char(1) == 'w' {
            return Ok(DirectionMode::Mixed);
        }
    }
    Err(HMSimError::CommandError)
}

impl AddressCursor {
    /// The frontiers lie in the address space, and a block has sectors.
    pub open spec fn well_formed(&self) -> bool {
        &&& self.block_size > 0
        &&& self.write_frontier <= self.total_size
        &&& self.read_frontier <= self.total_size
    }

    /// The request that the draws `units`, a size in blocks, and `drawn`, a
    /// sector, lead to. A write starts at the write frontier and ends at the
    /// end of the address space at the latest. A random read starts at the
    /// block that holds `drawn` and ends at the write frontier at the latest.
    /// A sequential read starts at the read frontier and ends with the address
    /// space at the latest.
    pub open spec fn request_for(
        self,
        order: AddressOrder,
        direction: Direction,
        units: u64,
        drawn: u64,
    ) -> Request {
        let length = units * self.block_size;
        match direction {
            Direction::Write => Request {
                direction,
                offset: self.write_frontier,
                length: least(length, self.total_size - self.write_frontier) as u64,
            },
            Direction::Read => match order {
                AddressOrder::Random => {
                    let offset = (drawn / self.block_size * self.block_size) as u64;
                    Request {
                        direction,
                        offset,
                        length: least(length, self.write_frontier - offset) as u64,
                    }
                },
                AddressOrder::Sequential => Request {
                    direction,
                    offset: self.read_frontier,
                    length: least(length, self.total_size - self.read_frontier) as u64,
                },
            },
        }
    }

    /// The cursor once `request` is issued: a write moves the write frontier
    /// by its length, a sequential read the read frontier.
    pub open spec fn after(self, order: AddressOrder, request: Request) -> AddressCursor {
        match request.direction {
            Direction::Write => AddressCursor {
                write_frontier: (self.write_frontier + request.length) as u64,
                ..self
            },
            Direction::Read => match order {
                AddressOrder::Random => self,
                AddressOrder::Sequential => AddressCursor {
                    read_frontier: (self.read_frontier + request.length) as u64,
                    ..self
                },
            },
        }
    }

    /// The cursor once all of `requests` are issued, in their order.
    pub open spec fn after_all(self, order: AddressOrder, requests: Seq<Request>) -> AddressCursor
        decreases requests.len(),
    {
        if requests.len() == 0 {
            self
        } else {
            self.after_all(order, requests.drop_last()).after(order, requests.last())
        }
    }

    /// A cursor for an address space of `total_size` sectors of which the
    /// first `written` are written.
    pub fn new(total_size: u64, block_size: u64, written: u64) -> (cursor: AddressCursor)
        ensures
            cursor == (AddressCursor {
                total_size,
                block_size,
                write_frontier: written,
                read_frontier: 0,
            }),
    {
        AddressCursor { total_size, block_size, write_frontier: written, read_frontier: 0 }
    }

    /// The length that is left of `length` for a write at the write frontier.
    pub fn clip_write(&self, length: u64) -> (clipped: u64)
        requires
            self.well_formed(),
        ensures
            clipped == least(length as int, self.total_size - self.write_frontier),
    {
        let room = self.total_size - self.write_frontier;
        if length <= room {
            length
        } else {
            room
        }
    }

    /// Hands out the write frontier and moves it on by `length`.
    pub fn advance_write(&mut self, length: u64) -> (offset: u64)
        requires
            old(self).write_frontier + length <= old(self).total_size,
        ensures
            offset == old(self).write_frontier,
            *final(self) == (AddressCursor {
                write_frontier: (old(self).write_frontier + length) as u64,
                ..*old(self)
            }),
    {
        let offset = self.write_frontier;
        self.write_frontier = offset + length;
        offset
    }

    /// The offset of a read of `length` sectors, and what is left of the
    /// length there. In random order the read starts at the block that holds
    /// the sector `drawn` and is cut at the write frontier; in sequential
    /// order it starts at the read frontier, which moves on, and is cut at the
    /// end of the address space.
    pub fn pick_read_offset(&mut self, mode: AddressOrder, length: u64, drawn: u64) -> (placed: (
        u64,
        u64,
    ))
        requires
            old(self).well_formed(),
            mode == AddressOrder::Random ==> drawn < old(self).write_frontier,
        ensures
            mode == AddressOrder::Random ==> {
                &&& placed.0 == drawn / old(self).block_size * old(self).block_size
                &&& placed.1 == least(length as int, old(self).write_frontier - placed.0)
                &&& *final(self) == *old(self)
            },
            mode == AddressOrder::Sequential ==> {
                &&& placed.0 == old(self).read_frontier
                &&& placed.1 == least(length as int, old(self).total_size - old(self).read_frontier)
                &&& *final(self) == (AddressCursor {
                    read_frontier: (old(self).read_frontier + placed.1) as u64,
                    ..*old(self)
                })
            },
    {
        match mode {
            AddressOrder::Random => {
                let block = drawn / self.block_size;
                assert(block * self.block_size <= drawn) by (nonlinear_arith)
                    requires
                        block == drawn / self.block_size,
                        self.block_size > 0,
                ;
                let offset = block * self.block_size;
                let room = self.write_frontier - offset;
                let clipped = if length <= room {
                    length
                } else {
                    room
                };
                (offset, clipped)
            },
            AddressOrder::Sequential => {
                let offset = self.read_frontier;
                let room = self.total_size - offset;
                let clipped = if length <= room {
                    length
                } else {
                    room
                };
                self.read_frontier = offset + clipped;
                (offset, clipped)
            },
        }
    }

    /// Issues the request that the draws lead to.
    pub fn place(
        &mut self,
        order: AddressOrder,
        direction: Direction,
        units: u64,
        drawn: u64,
    ) -> (request: Request)
        requires
            old(self).well_formed(),
            direction == Direction::Read && order == AddressOrder::Random ==> drawn < old(
                self,
            ).write_frontier,
        ensures
            request == old(self).request_for(order, direction, units, drawn),
            *final(self) == old(self).after(order, request),
            final(self).well_formed(),
            request.offset + request.length <= old(self).total_size,
    {
        let length = match units.checked_mul(self.block_size) {
            Some(length) => length,
            None => u64::MAX,
        };
        match direction {
            Direction::Write => {
                let clipped = self.clip_write(length);
                let offset = self.advance_write(clipped);
                Request { direction, offset, length: clipped }
            },
            Direction::Read => {
                let (offset, clipped) = self.pick_read_offset(order, length, drawn);
                Request { direction, offset, length: clipped }
            },
        }
    }
}

impl TapeTrace {
    /// Every number is 0, no batches, no distribution, reads in random order.
    pub open spec fn is_blank(&self) -> bool {
        &&& self.total_size == 0
        &&& self.block_size == 0
        &&& self.write_size_start == 0
        &&& self.write_size_end == 0
        &&& self.write_size_range == 0
        &&& self.read_size_start == 0
        &&& self.read_size_end == 0
        &&& self.read_size_range == 0
        &&& self.rwsize_start == 0
        &&& self.rwsize_end == 0
        &&& self.rwsize_range == 0
        &&& self.batch@ == Seq::<char>::empty()
        &&& self.batch_iow_num_begin == 0
        &&& self.batch_iow_num_end == 0
        &&& self.batch_iow_num_range == 0
        &&& self.batch_ior_num_begin == 0
        &&& self.batch_ior_num_end == 0
        &&& self.batch_ior_num_range == 0
        &&& self.dist == Dist::Unset
        &&& self.length_dist == Dist::Unset
        &&& self.read_order == AddressOrder::Random
        &&& self.initial_frontier == 0
    }

    /// A configuration with nothing set.
    pub fn new() -> (trace: TapeTrace)
        ensures
            trace.is_blank(),
    {
        TapeTrace {
            total_size: 0,
            block_size: 0,
            write_size_start: 0,
            write_size_end: 0,
            write_size_range: 0,
            read_size_start: 0,
            read_size_end: 0,
            read_size_range: 0,
            rwsize_start: 0,
            rwsize_end: 0,
            rwsize_range: 0,
            batch: String::new(),
            batch_iow_num_begin: 0,
            batch_iow_num_end: 0,
            batch_iow_num_range: 0,
            batch_ior_num_begin: 0,
            batch_ior_num_end: 0,
            batch_ior_num_range: 0,
            dist: Dist::Unset,
            length_dist: Dist::Unset,
            read_order: AddressOrder::Random,
            initial_frontier: 0,
        }
    }

    /// A run writes only where no read size is set, reads only where no write
    /// size is set, and does both otherwise.
    pub open spec fn mode(&self) -> DirectionMode {
        if self.read_size_end == 0 {
            DirectionMode::WriteOnly
        } else if self.write_size_end == 0 {
            DirectionMode::ReadOnly
        } else {
            DirectionMode::Mixed
        }
    }

    /// Whether requests of `direction` come in batches.
    pub open spec fn batches(&self, direction: Direction) -> bool {
        match direction {
            Direction::Read => self.batch@.contains('r'),
            Direction::Write => self.batch@.contains('w'),
        }
    }

    /// Whether the lengths of the requests are samples of a distribution.
    pub open spec fn sampled(&self) -> bool {
        self.length_dist != Dist::Unset
    }

    /// The least size of a request of `direction`, in blocks: the start of
    /// its range, or one block where the lengths are samples.
    pub open spec fn size_low(&self, direction: Direction) -> u64 {
        if self.sampled() {
            1
        } else {
            match direction {
                Direction::Read => self.read_size_start,
                Direction::Write => self.write_size_start,
            }
        }
    }

    /// The largest size of a request of `direction`, in blocks: the end of its
    /// range, or any number of blocks where the lengths are samples.
    pub open spec fn size_high(&self, direction: Direction) -> u64 {
        if self.sampled() {
            u64::MAX
        } else {
            match direction {
                Direction::Read => self.read_size_end,
                Direction::Write => self.write_size_end,
            }
        }
    }

    /// The least number of requests that a batch of `direction` comes to:
    /// the start of the batch range, or one where the lengths are samples, of
    /// which those below a block issue no request.
    pub open spec fn batch_least(&self, direction: Direction) -> u64 {
        if self.sampled() {
            1
        } else {
            self.batch_low(direction)
        }
    }

    /// The least number of requests in a batch of `direction`.
    pub open spec fn batch_low(&self, direction: Direction) -> u64 {
        match direction {
            Direction::Read => self.batch_ior_num_begin,
            Direction::Write => self.batch_iow_num_begin,
        }
    }

    /// The largest number of requests in a batch of `direction`.
    pub open spec fn batch_high(&self, direction: Direction) -> u64 {
        match direction {
            Direction::Read => self.batch_ior_num_end,
            Direction::Write => self.batch_iow_num_end,
        }
    }

    /// The ranges for `direction` hold a number each, so that one can be
    /// drawn.
    pub open spec fn drawable(&self, direction: Direction) -> bool {
        &&& self.size_low(direction) <= self.size_high(direction)
        &&& self.batches(direction) ==> self.batch_low(direction) <= self.batch_high(direction)
    }

    /// The ranges for `direction` hold a number each and no 0, so that every
    /// batch has a request and every request a block.
    pub open spec fn ready(&self, direction: Direction) -> bool {
        &&& self.drawable(direction)
        &&& 1 <= self.size_low(direction)
        &&& self.batches(direction) ==> 1 <= self.batch_low(direction)
    }

    /// The configurations that a run accepts: blocks divide the address
    /// space; each direction that the mode issues is ready; a run that writes
    /// starts on an empty address space, and a run that only reads on one that
    /// has been written to.
    pub open spec fn runnable(&self) -> bool {
        &&& self.block_size > 0
        &&& self.total_size % self.block_size == 0
        &&& self.mode() != DirectionMode::ReadOnly ==> self.ready(Direction::Write)
            && self.initial_frontier == 0
        &&& self.mode() != DirectionMode::WriteOnly ==> self.ready(Direction::Read)
        &&& self.mode() == DirectionMode::ReadOnly ==> 0 < self.initial_frontier
            <= self.total_size
    }

    /// The cursor at the start of a run.
    pub open spec fn start(&self) -> AddressCursor {
        AddressCursor {
            total_size: self.total_size,
            block_size: self.block_size,
            write_frontier: self.initial_frontier,
            read_frontier: 0,
        }
    }

    /// Whether the draws `units` and `drawn` can come up for a request of
    /// `direction` at `cursor`: the size lies in its range, and a read has
    /// something written to go to, a random one to a written sector.
    pub open spec fn draws_allowed(
        &self,
        cursor: AddressCursor,
        direction: Direction,
        units: u64,
        drawn: u64,
    ) -> bool {
        &&& self.size_low(direction) <= units <= self.size_high(direction)
        &&& direction == Direction::Read ==> cursor.write_frontier > 0
        &&& direction == Direction::Read && self.read_order == AddressOrder::Random ==> drawn
            < cursor.write_frontier
    }

    /// Whether `request` can be the next one at `cursor`: some draws that are
    /// allowed there lead to it.
    pub open spec fn is_step(&self, cursor: AddressCursor, request: Request) -> bool {
        exists|units: u64, drawn: u64|
            self.draws_allowed(cursor, request.direction, units, drawn) && request
                == #[trigger] cursor.request_for(self.read_order, request.direction, units, drawn)
    }

    /// Whether `requests` can be issued from `cursor` on, one after the other.
    pub open spec fn follows(&self, cursor: AddressCursor, requests: Seq<Request>) -> bool
        decreases requests.len(),
    {
        requests.len() == 0 || (self.follows(cursor, requests.drop_last()) && self.is_step(
            cursor.after_all(self.read_order, requests.drop_last()),
            requests.last(),
        ))
    }

    /// Whether a batch of `direction` issued at `cursor` may have `count`
    /// requests: none for a read of nothing written, else a number of the
    /// batch range, or one where the direction has no batches.
    pub open spec fn batch_count_ok(
        &self,
        cursor: AddressCursor,
        direction: Direction,
        count: nat,
    ) -> bool {
        if direction == Direction::Read && cursor.write_frontier == 0 {
            count == 0
        } else if self.batches(direction) {
            self.batch_low(direction) <= count <= self.batch_high(direction)
        } else {
            count == 1
        }
    }

    /// Whether a run may issue `direction` at `cursor`: the mode allows it,
    /// and nothing is read before anything is written.
    pub open spec fn direction_allowed(&self, cursor: AddressCursor, direction: Direction) -> bool {
        match self.mode() {
            DirectionMode::ReadOnly => direction == Direction::Read,
            DirectionMode::WriteOnly => direction == Direction::Write,
            DirectionMode::Mixed => cursor.write_frontier == 0 ==> direction == Direction::Write,
        }
    }

    /// The mode of the run.
    pub fn direction_mode(&self) -> (mode: DirectionMode)
        ensures
            mode == self.mode(),
    {
        if self.read_size_end == 0 {
            DirectionMode::WriteOnly
        } else if self.write_size_end == 0 {
            DirectionMode::ReadOnly
        } else {
            DirectionMode::Mixed
        }
    }

    /// The configuration with the sizes of the directions that `mode` does
    /// not issue taken out, so that it runs in `mode`.
    pub open spec fn restricted(&self, mode: DirectionMode) -> TapeTrace {
        match mode {
            DirectionMode::ReadOnly => TapeTrace {
                write_size_start: 0,
                write_size_end: 0,
                write_size_range: 0,
                ..*self
            },
            DirectionMode::WriteOnly => TapeTrace {
                read_size_start: 0,
                read_size_end: 0,
                read_size_range: 0,
                ..*self
            },
            DirectionMode::Mixed => *self,
        }
    }

    /// Whether the configuration has sizes for what `mode` issues.
    pub open spec fn serves(&self, mode: DirectionMode) -> bool {
        &&& mode != DirectionMode::ReadOnly ==> self.write_size_end > 0
        &&& mode != DirectionMode::WriteOnly ==> self.read_size_end > 0
    }

    /// Makes the run one of `mode` by taking out the sizes of the directions
    /// that the mode does not issue. A configuration without sizes for a
    /// direction that the mode issues contradicts it and stays as it is.
    pub fn restrict_to(&mut self, mode: DirectionMode) -> (restricted: Result<(), HMSimError>)
        ensures
            restricted is Ok <==> old(self).serves(mode),
            restricted is Ok ==> *final(self) == old(self).restricted(mode) && final(self).mode()
                == mode,
            restricted matches Err(refusal) ==> refusal == HMSimError::CommandError && *final(self)
                == *old(self),
    {
        let writes = self.write_size_end > 0;
        let reads = self.read_size_end > 0;
        match mode {
            DirectionMode::ReadOnly => {
                if !reads {
                    return Err(HMSimError::CommandError);
                }
                self.write_size_start = 0;
                self.write_size_end = 0;
                self.write_size_range = 0;
            },
            DirectionMode::WriteOnly => {
                if !writes {
                    return Err(HMSimError::CommandError);
                }
                self.read_size_start = 0;
                self.read_size_end = 0;
                self.read_size_range = 0;
            },
            DirectionMode::Mixed => {
                if !reads || !writes {
                    return Err(HMSimError::CommandError);
                }
            },
        }
        Ok(())
    }

    /// Whether requests of `direction` come in batches.
    pub fn batching(&self, direction: Direction) -> (batched: bool)
        ensures
            batched == self.batches(direction),
    {
        match direction {
            Direction::Read => has_char(self.batch.as_str(), 'r'),
            Direction::Write => has_char(self.batch.as_str(), 'w'),
        }
    }

    fn is_ready(&self, direction: Direction) -> (ready: bool)
        ensures
            ready == self.ready(direction),
    {
        let (size_low, size_high, batch_low, batch_high) = match direction {
            Direction::Read => (
                self.read_size_start,
                self.read_size_end,
                self.batch_ior_num_begin,
                self.batch_ior_num_end,
            ),
            Direction::Write => (
                self.write_size_start,
                self.write_size_end,
                self.batch_iow_num_begin,
                self.batch_iow_num_end,
            ),
        };
        let batched = self.batching(direction);
        let sized = self.length_dist != Dist::Unset || (1 <= size_low && size_low <= size_high);
        sized && (!batched || (1 <= batch_low && batch_low <= batch_high))
    }

    /// Accepts the configuration for a run, or says that it contradicts
    /// itself.
    pub fn validate(&self) -> (checked: Result<(), HMSimError>)
        ensures
            checked is Ok <==> self.runnable(),
            checked is Err ==> checked == Err::<(), HMSimError>(HMSimError::CommandError),
    {
        if self.block_size == 0 || self.total_size % self.block_size != 0 {
            return Err(HMSimError::CommandError);
        }
        let mode = self.direction_mode();
        let writes_ok = match mode {
            DirectionMode::ReadOnly => true,
            _ => self.is_ready(Direction::Write) && self.initial_frontier == 0,
        };
        let reads_ok = match mode {
            DirectionMode::WriteOnly => true,
            _ => self.is_ready(Direction::Read),
        };
        let frontier_ok = match mode {
            DirectionMode::ReadOnly => 0 < self.initial_frontier && self.initial_frontier
                <= self.total_size,
            _ => true,
        };
        if writes_ok && reads_ok && frontier_ok {
            Ok(())
        } else {
            Err(HMSimError::CommandError)
        }
    }

    /// The direction of the next batch at `cursor` where the draw of 0 or 1
    /// came out as `coin`: the one of the mode, or in a mixed run a write
    /// while nothing is written, and after that a read for 0 and a write
    /// for 1.
    pub open spec fn direction_of_coin(&self, cursor: AddressCursor, coin: u64) -> Direction {
        match self.mode() {
            DirectionMode::ReadOnly => Direction::Read,
            DirectionMode::WriteOnly => Direction::Write,
            DirectionMode::Mixed => if cursor.write_frontier == 0 || coin >= 1 {
                Direction::Write
            } else {
                Direction::Read
            },
        }
    }

    /// The direction of the next batch for a draw of `coin`.
    pub fn direction_for(&self, cursor: &AddressCursor, coin: u64) -> (direction: Direction)
        ensures
            direction == self.direction_of_coin(*cursor, coin),
            self.direction_allowed(*cursor, direction),
    {
        match self.direction_mode() {
            DirectionMode::ReadOnly => Direction::Read,
            DirectionMode::WriteOnly => Direction::Write,
            DirectionMode::Mixed => {
                if cursor.write_frontier == 0 || coin >= 1 {
                    Direction::Write
                } else {
                    Direction::Read
                }
            },
        }
    }

    /// Draws the direction of the next batch: 0 or 1, each as likely as the
    /// other, decides between a read and a write where the run is free to do
    /// either.
    pub fn choose_direction(&self, rng: &mut StdRng, cursor: &AddressCursor) -> (direction:
        Direction)
        ensures
            exists|coin: u64|
                coin <= 1 && direction == #[trigger] self.direction_of_coin(*cursor, coin),
            self.direction_allowed(*cursor, direction),
    {
        let coin = uniform_inclusive(rng, 0, 1);
        let direction = self.direction_for(cursor, coin);
        assert(direction == self.direction_of_coin(*cursor, coin));
        direction
    }

    /// Draws one request of `direction` and issues it at `cursor`: a size from
    /// the range of the direction and, for a random read, a written sector.
    pub fn generate_one(
        &self,
        rng: &mut StdRng,
        direction: Direction,
        cursor: &mut AddressCursor,
    ) -> (request: Request)
        requires
            old(cursor).well_formed(),
            !self.sampled(),
            self.size_low(direction) <= self.size_high(direction),
            direction == Direction::Read ==> old(cursor).write_frontier > 0,
        ensures
            request.direction == direction,
            self.is_step(*old(cursor), request),
            *final(cursor) == old(cursor).after(self.read_order, request),
            final(cursor).well_formed(),
    {
        let units = match direction {
            Direction::Read => uniform_inclusive(rng, self.read_size_start, self.read_size_end),
            Direction::Write => uniform_inclusive(rng, self.write_size_start, self.write_size_end),
        };
        let drawn = match (direction, self.read_order) {
            (Direction::Read, AddressOrder::Random) => uniform_inclusive(
                rng,
                0,
                cursor.write_frontier - 1,
            ),
            _ => 0,
        };
        let request = cursor.place(self.read_order, direction, units, drawn);
        assert(self.draws_allowed(*old(cursor), direction, units, drawn));
        assert(request == old(cursor).request_for(
            self.read_order,
            request.direction,
            units,
            drawn,
        ));
        request
    }

    /// Draws the number of requests of a batch of `direction` at `cursor`:
    /// none for a read of nothing written, else a number of the batch range,
    /// or one where the direction has no batches, in which case nothing is
    /// drawn.
    pub fn batch_size(
        &self,
        rng: &mut StdRng,
        direction: Direction,
        cursor: &AddressCursor,
    ) -> (count: u64)
        requires
            self.batches(direction) ==> self.batch_low(direction) <= self.batch_high(direction),
        ensures
            self.batch_count_ok(*cursor, direction, count as nat),
    {
        if direction == Direction::Read && cursor.write_frontier == 0 {
            0
        } else if self.batching(direction) {
            match direction {
                Direction::Read => uniform_inclusive(
                    rng,
                    self.batch_ior_num_begin,
                    self.batch_ior_num_end,
                ),
                Direction::Write => uniform_inclusive(
                    rng,
                    self.batch_iow_num_begin,
                    self.batch_iow_num_end,
                ),
            }
        } else {
            1
        }
    }

    /// Issues at `cursor` the request of `direction` whose length `sample`
    /// was drawn for, in sectors. A sample that holds no whole block issues
    /// none, nor does a read of nothing written.
    pub fn generate_sampled(
        &self,
        rng: &mut StdRng,
        direction: Direction,
        cursor: &mut AddressCursor,
        sample: u64,
    ) -> (issued: Option<Request>)
        requires
            old(cursor).well_formed(),
            self.sampled(),
        ensures
            issued is Some <==> sample >= old(cursor).block_size && !(direction == Direction::Read
                && old(cursor).write_frontier == 0),
            issued matches Some(request) ==> {
                &&& request.direction == direction
                &&& self.is_step(*old(cursor), request)
                &&& exists|drawn: u64| request == #[trigger] old(cursor).request_for(
                    self.read_order,
                    direction,
                    sample / old(cursor).block_size,
                    drawn,
                )
                &&& *final(cursor) == old(cursor).after(self.read_order, request)
            },
            issued is None ==> *final(cursor) == *old(cursor),
            final(cursor).well_formed(),
    {
        let length = sampled_length(sample, cursor.block_size);
        if length == 0 || (direction == Direction::Read && cursor.write_frontier == 0) {
            return None;
        }
        let units = length / cursor.block_size;
        assert(units == sample / cursor.block_size && units >= 1) by (nonlinear_arith)
            requires
                units == length / cursor.block_size,
                length == sample / cursor.block_size * cursor.block_size,
                sample >= cursor.block_size,
                cursor.block_size > 0,
        ;
        let drawn = match (direction, self.read_order) {
            (Direction::Read, AddressOrder::Random) => uniform_inclusive(
                rng,
                0,
                cursor.write_frontier - 1,
            ),
            _ => 0,
        };
        let request = cursor.place(self.read_order, direction, units, drawn);
        assert(self.draws_allowed(*old(cursor), direction, units, drawn));
        assert(request == old(cursor).request_for(
            self.read_order,
            request.direction,
            units,
            drawn,
        ));
        Some(request)
    }

    /// Whether every sample that `sampler` can hand out holds a block of
    /// `block_size` sectors.
    pub open spec fn always_a_block<F: Fn() -> u64>(sampler: &F, block_size: u64) -> bool {
        forall|sample: u64| sampler.ensures((), sample) ==> sample >= block_size
    }

    /// Issues one batch of `direction` at `cursor` with lengths that
    /// `sampler` hands out, in sectors, and returns its requests with the sum
    /// of their lengths, which stops at `u64::MAX`. As many samples are taken
    /// as the batch is drawn to have requests; those below a block issue
    /// none, so that the batch may come out smaller or empty.
    pub fn operation_sampled<F: Fn() -> u64>(
        &self,
        rng: &mut StdRng,
        direction: Direction,
        cursor: &mut AddressCursor,
        sampler: &F,
    ) -> (batch: (Vec<Request>, u64))
        requires
            old(cursor).well_formed(),
            self.sampled(),
            self.batches(direction) ==> self.batch_low(direction) <= self.batch_high(direction),
            forall|nothing: ()| sampler.requires(nothing),
        ensures
            self.follows(*old(cursor), batch.0@),
            *final(cursor) == old(cursor).after_all(self.read_order, batch.0@),
            final(cursor).well_formed(),
            all_direction(batch.0@, direction),
            batch.0@.len() <= if self.batches(direction) {
                self.batch_high(direction)
            } else {
                1
            },
            direction == Direction::Read && old(cursor).write_frontier == 0 ==> batch.0@.len()
                == 0,
            Self::always_a_block(sampler, old(cursor).block_size) ==> self.batch_count_ok(
                *old(cursor),
                direction,
                batch.0@.len(),
            ),
            batch.1 == saturated(volume(batch.0@)),
    {
        let mut requests: Vec<Request> = Vec::new();
        let mut emitted: u64 = 0;
        let ghost start = *cursor;
        let count = self.batch_size(rng, direction, cursor);
        let mut tried: u64 = 0;
        while tried < count
            invariant
                tried <= count,
                requests@.len() <= tried,
                Self::always_a_block(sampler, start.block_size) ==> requests@.len() == tried,
                cursor.block_size == start.block_size,
                direction == Direction::Read && count > 0 ==> cursor.write_frontier > 0,
                cursor.well_formed(),
                self.sampled(),
                forall|nothing: ()| sampler.requires(nothing),
                self.follows(start, requests@),
                *cursor == start.after_all(self.read_order, requests@),
                all_direction(requests@, direction),
                emitted == saturated(volume(requests@)),
            decreases count - tried,
        {
            let ghost before = requests@;
            let sample = sampler();
            match self.generate_sampled(rng, direction, cursor, sample) {
                Some(request) => {
                    requests.push(request);
                    emitted = emitted.saturating_add(request.length);
                    proof {
                        assert(requests@.drop_last() =~= before);
                        assert(requests@.last() == request);
                    }
                },
                None => {},
            }
            tried += 1;
        }
        (requests, emitted)
    }

    /// Issues one batch of `direction` at `cursor` and returns its requests
    /// with the sum of their lengths, which stops at `u64::MAX`. The batch has
    /// one request, or where the direction has batches as many as are drawn
    /// from the batch range; a read of nothing written has none.
    pub fn operation(
        &self,
        rng: &mut StdRng,
        direction: Direction,
        cursor: &mut AddressCursor,
    ) -> (batch: (Vec<Request>, u64))
        requires
            old(cursor).well_formed(),
            !self.sampled(),
            self.drawable(direction),
        ensures
            self.follows(*old(cursor), batch.0@),
            *final(cursor) == old(cursor).after_all(self.read_order, batch.0@),
            final(cursor).well_formed(),
            all_direction(batch.0@, direction),
            self.batch_count_ok(*old(cursor), direction, batch.0@.len()),
            batch.1 == saturated(volume(batch.0@)),
    {
        let mut requests: Vec<Request> = Vec::new();
        let mut emitted: u64 = 0;
        let ghost start = *cursor;
        let count = self.batch_size(rng, direction, cursor);
        let mut issued: u64 = 0;
        while issued < count
            invariant
                issued <= count,
                requests@.len() == issued,
                cursor.well_formed(),
                !self.sampled(),
                self.size_low(direction) <= self.size_high(direction),
                direction == Direction::Read && count > 0 ==> cursor.write_frontier > 0,
                self.follows(start, requests@),
                *cursor == start.after_all(self.read_order, requests@),
                all_direction(requests@, direction),
                emitted == saturated(volume(requests@)),
            decreases count - issued,
        {
            let ghost before = requests@;
            let request = self.generate_one(rng, direction, cursor);
            requests.push(request);
            emitted = emitted.saturating_add(request.length);
            issued += 1;
            proof {
                assert(requests@.drop_last() =~= before);
                assert(requests@.last() == request);
            }
        }
        (requests, emitted)
    }
}

/// The number of requests of `direction` in `requests`.
pub open spec fn count_of(requests: Seq<Request>, direction: Direction) -> nat
    decreases requests.len(),
{
    if requests.len() == 0 {
        0
    } else {
        count_of(requests.drop_last(), direction) + if requests.last().direction == direction {
            1nat
        } else {
            0nat
        }
    }
}

/// The sum of the lengths of the requests of `direction` in `requests`.
pub open spec fn volume_of(requests: Seq<Request>, direction: Direction) -> nat
    decreases requests.len(),
{
    if requests.len() == 0 {
        0
    } else {
        volume_of(requests.drop_last(), direction) + if requests.last().direction == direction {
            requests.last().length as nat
        } else {
            0nat
        }
    }
}

/// The requests of each batch.
pub open spec fn batch_views(batches: Seq<Vec<Request>>) -> Seq<Seq<Request>> {
    Seq::new(batches.len(), |i: int| batches[i]@)
}

/// What a run has issued: its batches in their order, and for each direction
/// the number of requests and the sum of their lengths. Each of the four
/// numbers stops at `u64::MAX`.
#[derive(Debug, Clone)]
pub struct GeneratedTrace {
    pub batches: Vec<Vec<Request>>,
    pub op_read: u64,
    pub op_write: u64,
    pub read_data: u64,
    pub write_data: u64,
}

impl GeneratedTrace {
    /// The requests of the run in the order of issue.
    pub open spec fn requests(&self) -> Seq<Request> {
        batch_views(self.batches@).flatten()
    }
}

impl TapeTrace {
    /// Whether `batch` can be a batch of a run: it has a request, its requests
    /// have one direction, which the mode issues, and their number is one, or
    /// where the direction has batches a number of the batch range.
    pub open spec fn batch_shape_ok(&self, batch: Seq<Request>) -> bool {
        &&& batch.len() >= 1
        &&& all_direction(batch, batch[0].direction)
        &&& self.mode() == DirectionMode::ReadOnly ==> batch[0].direction == Direction::Read
        &&& self.mode() == DirectionMode::WriteOnly ==> batch[0].direction == Direction::Write
        &&& if self.batches(batch[0].direction) {
            self.batch_least(batch[0].direction) <= batch.len() <= self.batch_high(
                batch[0].direction,
            )
        } else {
            batch.len() == 1
        }
    }

    /// What a finished run has issued. The requests follow each other from the
    /// start of the address space on. Every batch has the shape of a batch.
    /// The lengths add up to the budget at least, and those of the batches
    /// before the last one to less than the budget. The four numbers count the
    /// requests and their lengths.
    pub open spec fn is_run(&self, generated: GeneratedTrace) -> bool {
        let groups = batch_views(generated.batches@);
        let requests = generated.requests();
        &&& self.follows(self.start(), requests)
        &&& forall|i: int| 0 <= i < groups.len() ==> self.batch_shape_ok(#[trigger] groups[i])
        &&& volume(requests) >= self.total_size
        &&& forall|k: int|
            0 <= k < groups.len() ==> volume((#[trigger] groups.take(k)).flatten())
                < self.total_size
        &&& generated.op_read == saturated(count_of(requests, Direction::Read))
        &&& generated.op_write == saturated(count_of(requests, Direction::Write))
        &&& generated.read_data == saturated(volume_of(requests, Direction::Read))
        &&& generated.write_data == saturated(volume_of(requests, Direction::Write))
    }
}

proof fn lemma_count_concat(a: Seq<Request>, b: Seq<Request>, direction: Direction)
    ensures
        count_of(a + b, direction) == count_of(a, direction) + count_of(b, direction),
        volume_of(a + b, direction) == volume_of(a, direction) + volume_of(b, direction),
    decreases b.len(),
{
    if b.len() == 0 {
        assert(a + b =~= a);
    } else {
        lemma_count_concat(a, b.drop_last(), direction);
        assert((a + b).drop_last() =~= a + b.drop_last());
    }
}

proof fn lemma_count_one_direction(batch: Seq<Request>, direction: Direction, other: Direction)
    requires
        all_direction(batch, direction),
    ensures
        count_of(batch, direction) == batch.len(),
        volume_of(batch, direction) == volume(batch),
        other != direction ==> count_of(batch, other) == 0 && volume_of(batch, other) == 0,
    decreases batch.len(),
{
    if batch.len() > 0 {
        lemma_count_one_direction(batch.drop_last(), direction, other);
    }
}

impl TapeTrace {
    /// What one step does to a cursor.
    pub proof fn lemma_step(&self, cursor: AddressCursor, request: Request)
        requires
            cursor.well_formed(),
            self.is_step(cursor, request),
        ensures
            request.offset + request.length <= cursor.total_size,
            cursor.after(self.read_order, request).well_formed(),
            cursor.after(self.read_order, request).total_size == cursor.total_size,
            cursor.after(self.read_order, request).block_size == cursor.block_size,
            cursor.write_frontier <= cursor.after(self.read_order, request).write_frontier
                <= cursor.write_frontier + request.length,
            cursor.read_frontier <= cursor.after(self.read_order, request).read_frontier
                <= cursor.read_frontier + request.length,
            request.direction == Direction::Read ==> cursor.after(
                self.read_order,
                request,
            ).write_frontier == cursor.write_frontier && cursor.write_frontier > 0,
            request.direction == Direction::Read && self.read_order == AddressOrder::Random
                ==> request.offset + request.length <= cursor.write_frontier,
            request.direction == Direction::Write ==> request.offset == cursor.write_frontier,
    {
        let (units, drawn) = choose|units: u64, drawn: u64|
            self.draws_allowed(cursor, request.direction, units, drawn) && request
                == #[trigger] cursor.request_for(self.read_order, request.direction, units, drawn);
        assert(0 <= units * cursor.block_size) by (nonlinear_arith);
        assert(drawn / cursor.block_size * cursor.block_size <= drawn) by (nonlinear_arith)
            requires
                cursor.block_size > 0,
        ;
    }

    /// What a row of steps does to a cursor.
    pub proof fn lemma_steps(&self, cursor: AddressCursor, requests: Seq<Request>)
        requires
            cursor.well_formed(),
            self.follows(cursor, requests),
        ensures
            cursor.after_all(self.read_order, requests).well_formed(),
            cursor.after_all(self.read_order, requests).total_size == cursor.total_size,
            cursor.after_all(self.read_order, requests).block_size == cursor.block_size,
            cursor.write_frontier <= cursor.after_all(self.read_order, requests).write_frontier
                <= cursor.write_frontier + volume(requests),
            cursor.read_frontier <= cursor.after_all(self.read_order, requests).read_frontier
                <= cursor.read_frontier + volume(requests),
            all_direction(requests, Direction::Read) ==> cursor.after_all(
                self.read_order,
                requests,
            ).write_frontier == cursor.write_frontier,
        decreases requests.len(),
    {
        if requests.len() > 0 {
            self.lemma_steps(cursor, requests.drop_last());
            self.lemma_step(
                cursor.after_all(self.read_order, requests.drop_last()),
                requests.last(),
            );
            if all_direction(requests, Direction::Read) {
                assert(requests.last() == requests[requests.len() - 1]);
                assert(all_direction(requests.drop_last(), Direction::Read)) by {
                    assert forall|i: int| 0 <= i < requests.drop_last().len() implies (
                    #[trigger] requests.drop_last()[i]).direction == Direction::Read by {
                        assert(requests.drop_last()[i] == requests[i]);
                    }
                }
            }
        }
    }

    /// Two rows of steps, one from where the other ends, make one row.
    pub proof fn lemma_follows_concat(
        &self,
        cursor: AddressCursor,
        first: Seq<Request>,
        second: Seq<Request>,
    )
        requires
            self.follows(cursor, first),
            self.follows(cursor.after_all(self.read_order, first), second),
        ensures
            self.follows(cursor, first + second),
            cursor.after_all(self.read_order, first + second) == cursor.after_all(
                self.read_order,
                first,
            ).after_all(self.read_order, second),
        decreases second.len(),
    {
        if second.len() == 0 {
            assert(first + second =~= first);
        } else {
            self.lemma_follows_concat(cursor, first, second.drop_last());
            assert((first + second).drop_last() =~= first + second.drop_last());
            assert((first + second).last() == second.last());
        }
    }

    /// In a row of steps each request is a step from where the ones before
    /// it end.
    pub proof fn lemma_follows_at(&self, cursor: AddressCursor, requests: Seq<Request>, i: int)
        requires
            self.follows(cursor, requests),
            0 <= i < requests.len(),
        ensures
            self.follows(cursor, requests.take(i)),
            self.is_step(cursor.after_all(self.read_order, requests.take(i)), requests[i]),
        decreases requests.len(),
    {
        if i == requests.len() - 1 {
            assert(requests.take(i) =~= requests.drop_last());
        } else {
            self.lemma_follows_at(cursor, requests.drop_last(), i);
            assert(requests.drop_last().take(i) =~= requests.take(i));
        }
    }
}

impl TapeTrace {
    /// The first request of a row of steps is a step from where the row
    /// starts.
    pub proof fn lemma_first_step(&self, cursor: AddressCursor, requests: Seq<Request>)
        requires
            self.follows(cursor, requests),
            requests.len() >= 1,
        ensures
            self.is_step(cursor, requests[0]),
    {
        self.lemma_follows_at(cursor, requests, 0);
        assert(requests.take(0) =~= Seq::<Request>::empty());
    }

    /// A step of a block or more has a sector or more where there is room for
    /// one: a write before the end of the address space, a sequential read
    /// before its end, a random read anywhere.
    pub proof fn lemma_step_has_length(&self, cursor: AddressCursor, request: Request)
        requires
            cursor.well_formed(),
            self.is_step(cursor, request),
            1 <= self.size_low(request.direction),
            request.direction == Direction::Write ==> cursor.write_frontier < cursor.total_size,
            request.direction == Direction::Read && self.read_order == AddressOrder::Sequential
                ==> cursor.read_frontier < cursor.total_size,
        ensures
            request.length >= 1,
    {
        let (units, drawn) = choose|units: u64, drawn: u64|
            self.draws_allowed(cursor, request.direction, units, drawn) && request
                == #[trigger] cursor.request_for(self.read_order, request.direction, units, drawn);
        assert(1 <= units * cursor.block_size) by (nonlinear_arith)
            requires
                units >= 1,
                cursor.block_size >= 1,
        ;
        assert(drawn / cursor.block_size * cursor.block_size <= drawn) by (nonlinear_arith)
            requires
                cursor.block_size > 0,
        ;
    }
}

/// Runs the generation that `trace` configures, with `rng` as the source of
/// every draw of a whole number and `sampler` as the source of the lengths
/// where they are samples of a distribution. While the budget of
/// `total_size` sectors lasts, a batch is issued and the sum of its lengths
/// taken off the budget; the batch that uses it up may go beyond it, and the
/// requests at its end may be cut down to nothing at the end of the address
/// space. A batch whose samples are all less than a block issues nothing;
/// after `patience` such batches in a row the next one ends the run, as the
/// distribution does not suit the block size. With sizes drawn from their
/// ranges, or with a sampler that always hands out a block, no run ends that
/// way. A configuration that is not runnable is refused.
pub fn generate_tape_trace_with<F: Fn() -> u64>(
    trace: TapeTrace,
    rng: &mut StdRng,
    sampler: &F,
    patience: u64,
) -> (run: Result<GeneratedTrace, HMSimError>)
    requires
        forall|nothing: ()| sampler.requires(nothing),
    ensures
        run matches Ok(generated) ==> trace.runnable() && trace.is_run(generated),
        run matches Err(refusal) ==> refusal == HMSimError::CommandError,
        !trace.runnable() ==> run is Err,
        trace.runnable() && !trace.sampled() ==> run is Ok,
        trace.runnable() && TapeTrace::always_a_block(sampler, trace.block_size) ==> run is Ok,
{
    if trace.validate().is_err() {
        return Err(HMSimError::CommandError);
    }
    let sampled = trace.length_dist != Dist::Unset;
    let mut cursor = AddressCursor::new(trace.total_size, trace.block_size, trace.initial_frontier);
    let mut budget = trace.total_size;
    let mut idle: u64 = 0;
    let mut batches: Vec<Vec<Request>> = Vec::new();
    let mut op_read: u64 = 0;
    let mut op_write: u64 = 0;
    let mut read_data: u64 = 0;
    let mut write_data: u64 = 0;
    proof {
        assert(batch_views(batches@) =~= Seq::<Seq<Request>>::empty());
    }
    while budget > 0
        invariant
            trace.runnable(),
            sampled == trace.sampled(),
            forall|nothing: ()| sampler.requires(nothing),
            idle <= patience,
            cursor.well_formed(),
            cursor.total_size == trace.total_size,
            cursor.block_size == trace.block_size,
            trace.follows(trace.start(), batch_views(batches@).flatten()),
            cursor == trace.start().after_all(trace.read_order, batch_views(batches@).flatten()),
            forall|i: int|
                0 <= i < batches@.len() ==> trace.batch_shape_ok(
                    #[trigger] batch_views(batches@)[i],
                ),
            budget > 0 ==> volume(batch_views(batches@).flatten()) + budget == trace.total_size,
            budget == 0 ==> volume(batch_views(batches@).flatten()) >= trace.total_size,
            forall|k: int|
                0 <= k < batches@.len() ==> volume(
                    (#[trigger] batch_views(batches@).take(k)).flatten(),
                ) < trace.total_size,
            trace.mode() != DirectionMode::ReadOnly ==> cursor.write_frontier + budget
                <= trace.total_size,
            trace.mode() == DirectionMode::ReadOnly ==> cursor.write_frontier > 0,
            cursor.read_frontier + budget <= trace.total_size,
            op_read == saturated(count_of(batch_views(batches@).flatten(), Direction::Read)),
            op_write == saturated(count_of(batch_views(batches@).flatten(), Direction::Write)),
            read_data == saturated(volume_of(batch_views(batches@).flatten(), Direction::Read)),
            write_data == saturated(volume_of(batch_views(batches@).flatten(), Direction::Write)),
        decreases budget, patience - idle,
    {
        let ghost groups = batch_views(batches@);
        let ghost issued = groups.flatten();
        let ghost before = cursor;
        let direction = trace.choose_direction(rng, &cursor);
        let (requests, emitted) = if sampled {
            trace.operation_sampled(rng, direction, &mut cursor, sampler)
        } else {
            trace.operation(rng, direction, &mut cursor)
        };
        if requests.len() == 0 {
            match idle_step(idle, patience) {
                Ok(next) => {
                    idle = next;
                },
                Err(refusal) => {
                    return Err(refusal);
                },
            }
        } else {
            proof {
                trace.lemma_first_step(before, requests@);
                trace.lemma_step_has_length(before, requests@[0]);
                lemma_volume_at_least(requests@, 0);
                trace.lemma_steps(before, requests@);
                trace.lemma_follows_concat(trace.start(), issued, requests@);
                lemma_volume_concat(issued, requests@);
                lemma_count_concat(issued, requests@, Direction::Read);
                lemma_count_concat(issued, requests@, Direction::Write);
                lemma_count_one_direction(requests@, direction, Direction::Read);
                lemma_count_one_direction(requests@, direction, Direction::Write);
                groups.lemma_flatten_push(requests@);
            }
            let count = requests.len() as u64;
            match direction {
                Direction::Read => {
                    op_read = op_read.saturating_add(count);
                    read_data = read_data.saturating_add(emitted);
                },
                Direction::Write => {
                    op_write = op_write.saturating_add(count);
                    write_data = write_data.saturating_add(emitted);
                },
            }
            budget = consume(budget, emitted);
            idle = 0;
            batches.push(requests);
            proof {
                assert(batch_views(batches@) =~= groups.push(requests@));
                assert forall|i: int| 0 <= i < batches@.len() implies trace.batch_shape_ok(
                    #[trigger] batch_views(batches@)[i],
                ) by {
                    if i < groups.len() {
                        assert(batch_views(batches@)[i] == groups[i]);
                    }
                }
                assert forall|k: int| 0 <= k < batches@.len() implies volume(
                    (#[trigger] batch_views(batches@).take(k)).flatten(),
                ) < trace.total_size by {
                    if k < groups.len() {
                        assert(batch_views(batches@).take(k) =~= groups.take(k));
                    } else {
                        assert(batch_views(batches@).take(k) =~= groups);
                    }
                }
            }
        }
    }
    Ok(GeneratedTrace { batches, op_read, op_write, read_data, write_data })
}

/// Runs the generation that `trace` configures with sizes drawn from their
/// ranges, with `rng` as the source of every draw. A configuration that is
/// not runnable is refused, and so is one that asks for lengths from a
/// distribution, which take a sampler.
pub fn generate_tape_trace(trace: TapeTrace, rng: &mut StdRng) -> (run: Result<
    GeneratedTrace,
    HMSimError,
>)
    ensures
        run is Ok <==> trace.runnable() && !trace.sampled(),
        run matches Ok(generated) ==> trace.is_run(generated),
        run matches Err(refusal) ==> refusal == HMSimError::CommandError,
{
    if trace.length_dist != Dist::Unset {
        return Err(HMSimError::CommandError);
    }
    let unused = || -> (sample: u64) { 0u64 };
    generate_tape_trace_with(trace, rng, &unused, 0)
}

/// Where every batch has one direction, so have the requests of all batches
/// together.
pub proof fn lemma_flatten_direction(groups: Seq<Seq<Request>>, direction: Direction)
    requires
        forall|i: int| 0 <= i < groups.len() ==> all_direction(#[trigger] groups[i], direction),
    ensures
        all_direction(groups.flatten(), direction),
    decreases groups.len(),
{
    if groups.len() > 0 {
        let rest = groups.drop_last();
        assert forall|i: int| 0 <= i < rest.len() implies all_direction(
            #[trigger] rest[i],
            direction,
        ) by {
            assert(rest[i] == groups[i]);
        }
        lemma_flatten_direction(rest, direction);
        rest.lemma_flatten_push(groups.last());
        assert(rest.push(groups.last()) =~= groups);
        assert(all_direction(groups.last(), direction));
    }
}

impl TapeTrace {
    /// The write frontier has moved by what was written.
    pub proof fn lemma_frontier_is_written(&self, cursor: AddressCursor, requests: Seq<Request>)
        requires
            cursor.well_formed(),
            self.follows(cursor, requests),
        ensures
            cursor.after_all(self.read_order, requests).write_frontier == cursor.write_frontier
                + volume_of(requests, Direction::Write),
        decreases requests.len(),
    {
        if requests.len() > 0 {
            self.lemma_frontier_is_written(cursor, requests.drop_last());
            self.lemma_steps(cursor, requests.drop_last());
            self.lemma_step(
                cursor.after_all(self.read_order, requests.drop_last()),
                requests.last(),
            );
        }
    }

    /// Where blocks divide the address space and the writing starts at a block,
    /// the write frontier stays at a block.
    pub proof fn lemma_frontier_aligned(&self, cursor: AddressCursor, requests: Seq<Request>)
        requires
            cursor.well_formed(),
            cursor.total_size % cursor.block_size == 0,
            cursor.write_frontier % cursor.block_size == 0,
            self.follows(cursor, requests),
        ensures
            cursor.after_all(self.read_order, requests).write_frontier % cursor.block_size == 0,
        decreases requests.len(),
    {
        if requests.len() > 0 {
            let rest = requests.drop_last();
            let last = requests.last();
            let at = cursor.after_all(self.read_order, rest);
            self.lemma_frontier_aligned(cursor, rest);
            self.lemma_steps(cursor, rest);
            self.lemma_step(at, last);
            if last.direction == Direction::Write {
                let (units, drawn) = choose|units: u64, drawn: u64|
                    self.draws_allowed(at, last.direction, units, drawn) && last
                        == #[trigger] at.request_for(self.read_order, last.direction, units, drawn);
                if units * at.block_size <= at.total_size - at.write_frontier {
                    lemma_mod_multiples_vanish(
                        units as int,
                        at.write_frontier as int,
                        at.block_size as int,
                    );
                    assert(units * at.block_size == at.block_size * units) by (nonlinear_arith);
                }
            }
        }
    }

    /// Every request of a row of steps ends inside the address space.
    pub proof fn lemma_requests_inside(&self, cursor: AddressCursor, requests: Seq<Request>, i: int)
        requires
            cursor.well_formed(),
            self.follows(cursor, requests),
            0 <= i < requests.len(),
        ensures
            requests[i].offset + requests[i].length <= cursor.total_size,
    {
        self.lemma_follows_at(cursor, requests, i);
        self.lemma_steps(cursor, requests.take(i));
        self.lemma_step(cursor.after_all(self.read_order, requests.take(i)), requests[i]);
    }

    /// A write starts where the writes before it end. So the writes of a row
    /// of steps lie one behind the other, none over another.
    pub proof fn lemma_writes_in_a_row(&self, cursor: AddressCursor, requests: Seq<Request>, i: int)
        requires
            cursor.well_formed(),
            self.follows(cursor, requests),
            0 <= i < requests.len(),
            requests[i].direction == Direction::Write,
        ensures
            requests[i].offset == cursor.write_frontier + volume_of(
                requests.take(i),
                Direction::Write,
            ),
    {
        self.lemma_follows_at(cursor, requests, i);
        self.lemma_steps(cursor, requests.take(i));
        self.lemma_frontier_is_written(cursor, requests.take(i));
        self.lemma_step(cursor.after_all(self.read_order, requests.take(i)), requests[i]);
    }

    /// Where blocks divide the address space and the writing starts at a
    /// block, every write starts at a block.
    pub proof fn lemma_writes_aligned(&self, cursor: AddressCursor, requests: Seq<Request>, i: int)
        requires
            cursor.well_formed(),
            cursor.total_size % cursor.block_size == 0,
            cursor.write_frontier % cursor.block_size == 0,
            self.follows(cursor, requests),
            0 <= i < requests.len(),
            requests[i].direction == Direction::Write,
        ensures
            requests[i].offset % cursor.block_size == 0,
    {
        self.lemma_follows_at(cursor, requests, i);
        self.lemma_steps(cursor, requests.take(i));
        self.lemma_frontier_aligned(cursor, requests.take(i));
        self.lemma_step(cursor.after_all(self.read_order, requests.take(i)), requests[i]);
    }

    /// A read in random order ends at the write frontier of the moment at the
    /// latest, which is what was written before it: it reads nothing
    /// unwritten.
    pub proof fn lemma_random_reads_written(
        &self,
        cursor: AddressCursor,
        requests: Seq<Request>,
        i: int,
    )
        requires
            cursor.well_formed(),
            self.read_order == AddressOrder::Random,
            self.follows(cursor, requests),
            0 <= i < requests.len(),
            requests[i].direction == Direction::Read,
        ensures
            0 <= requests[i].offset,
            requests[i].offset + requests[i].length <= cursor.after_all(
                self.read_order,
                requests.take(i),
            ).write_frontier,
            cursor.after_all(self.read_order, requests.take(i)).write_frontier
                == cursor.write_frontier + volume_of(requests.take(i), Direction::Write),
    {
        self.lemma_follows_at(cursor, requests, i);
        self.lemma_steps(cursor, requests.take(i));
        self.lemma_frontier_is_written(cursor, requests.take(i));
        self.lemma_step(cursor.after_all(self.read_order, requests.take(i)), requests[i]);
    }

    /// Of every request of a finished run: it ends inside the address space;
    /// a write starts at a block, where the writes before it end; a read in
    /// random order ends inside what was written before it.
    pub proof fn lemma_run_requests(&self, generated: GeneratedTrace, i: int)
        requires
            self.runnable(),
            self.is_run(generated),
            0 <= i < generated.requests().len(),
        ensures
            generated.requests()[i].offset + generated.requests()[i].length <= self.total_size,
            generated.requests()[i].direction == Direction::Write ==> {
                &&& generated.requests()[i].offset % self.block_size == 0
                &&& generated.requests()[i].offset == volume_of(
                    generated.requests().take(i),
                    Direction::Write,
                )
            },
            generated.requests()[i].direction == Direction::Read && self.read_order
                == AddressOrder::Random ==> generated.requests()[i].offset
                + generated.requests()[i].length <= self.initial_frontier + volume_of(
                generated.requests().take(i),
                Direction::Write,
            ),
    {
        let requests = generated.requests();
        let groups = batch_views(generated.batches@);
        self.lemma_requests_inside(self.start(), requests, i);
        if requests[i].direction == Direction::Write {
            if self.mode() == DirectionMode::ReadOnly {
                assert forall|j: int| 0 <= j < groups.len() implies all_direction(
                    #[trigger] groups[j],
                    Direction::Read,
                ) by {
                    assert(self.batch_shape_ok(groups[j]));
                }
                lemma_flatten_direction(groups, Direction::Read);
            }
            self.lemma_writes_in_a_row(self.start(), requests, i);
            self.lemma_writes_aligned(self.start(), requests, i);
        } else if self.read_order == AddressOrder::Random {
            self.lemma_random_reads_written(self.start(), requests, i);
        }
    }
}

/// The sizes that `selector`, a number from 0 to 10, picks of the ten pieces
/// of `piece` sizes each that start at `start`: the first two pieces for a
/// selector below 4, the next two for one below 7, the next three for one
/// below 9, and the last three with the size that ends them for 9 and 10.
/// The pair holds the least and the largest of them.
pub open spec fn weighted_band(selector: u64, start: u64, piece: u64) -> (int, int) {
    if selector < 4 {
        (start as int, start + 2 * piece - 1)
    } else if selector < 7 {
        (start + 2 * piece, start + 4 * piece - 1)
    } else if selector < 9 {
        (start + 4 * piece, start + 7 * piece - 1)
    } else {
        (start + 7 * piece, start + 10 * piece)
    }
}

/// Draws a size between `start` and `end` of which the small ones come up
/// more often than the large ones: a selector from 0 to 10 picks a band of
/// sizes, and the size is drawn from the band.
pub fn generate_weighted_random_number(rng: &mut StdRng, start: u64, end: u64) -> (number: u64)
    requires
        start + 10 <= end,
    ensures
        start <= number <= end,
        exists|selector: u64|
            selector <= 10 && (#[trigger] weighted_band(
                selector,
                start,
                ((end - start) / 10) as u64,
            )).0 <= number <= weighted_band(selector, start, ((end - start) / 10) as u64).1,
{
    let rand_num = uniform_inclusive(rng, 0, 10);
    let piece = (end - start) / 10;
    let (low, high) = band_for(rand_num, start, piece);
    uniform_inclusive(rng, low, high)
}

/// The least and the largest size that `selector` picks.
pub fn band_for(selector: u64, start: u64, piece: u64) -> (band: (u64, u64))
    requires
        1 <= piece,
        start + 10 * piece <= u64::MAX,
    ensures
        band.0 == weighted_band(selector, start, piece).0,
        band.1 == weighted_band(selector, start, piece).1,
        start <= band.0 <= band.1 <= start + 10 * piece,
{
    if selector < 4 {
        (start, start + piece * 2 - 1)
    } else if selector < 7 {
        (start + piece * 2, start + piece * 4 - 1)
    } else if selector < 9 {
        (start + piece * 4, start + piece * 7 - 1)
    } else {
        (start + piece * 7, start + piece * 10)
    }
}

} // verus!
