//! Synthesis of disk and tape workload traces, and footprint statistics of
//! existing traces.
//!
//! Every size is a count of sectors of 512 bytes unless a name says otherwise.

use vstd::prelude::*;

pub mod commands;
pub mod error;
pub mod pattern;
pub mod random;
pub mod record;
pub mod text;
pub mod utils;

verus! {

/// A size as it was written, in bytes, and in sectors of 512 bytes.
#[derive(Debug, Clone)]
pub struct HMSimBlock {
    pub size_in_string: String,
    pub byte: u64,
    pub block: u64,
}

/// The two ends of a range of sizes.
#[derive(Debug, Clone)]
pub struct SizePair {
    pub size_begin: HMSimBlock,
    pub size_end: HMSimBlock,
}

impl HMSimBlock {
    /// No text and no bytes.
    pub open spec fn is_blank(&self) -> bool {
        &&& self.size_in_string@ == Seq::<char>::empty()
        &&& self.byte == 0
        &&& self.block == 0
    }

    /// The size of nothing.
    pub fn new() -> (block: HMSimBlock)
        ensures
            block.is_blank(),
    {
        HMSimBlock { size_in_string: String::new(), byte: 0, block: 0 }
    }
}

impl SizePair {
    /// A range from nothing to nothing.
    pub fn new() -> (pair: SizePair)
        ensures
            pair.size_begin.is_blank(),
            pair.size_end.is_blank(),
    {
        SizePair { size_begin: HMSimBlock::new(), size_end: HMSimBlock::new() }
    }
}

} // verus!
