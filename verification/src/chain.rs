//! What the derivation reads of the precursor chain, as plain values.

use crate::bytes::bytes_copy;
use crate::witness::bytes_of;
use vstd::prelude::*;

verus! {

/// A block header: its number, its place in its epoch, its timestamp in
/// milliseconds and its hash.
#[derive(Clone, Copy, Debug)]
pub struct Header {
    pub number: u64,
    pub epoch_number: u64,
    pub epoch_index: u64,
    pub epoch_length: u64,
    pub timestamp: u64,
    pub hash: [u8; 32],
}

/// An epoch: its number, the number of its first block, its length in blocks
/// and its difficulty target in compact form.
#[derive(Clone, Copy, Debug)]
pub struct Epoch {
    pub number: u64,
    pub start_number: u64,
    pub length: u64,
    pub compact_target: u32,
}

/// A block, as far as the scan reads it: its number, timestamp and hash, and
/// the first witness of its cellbase, which names the beneficiary.
#[derive(Clone, Debug)]
pub struct Block {
    pub number: u64,
    pub timestamp: u64,
    pub hash: [u8; 32],
    pub cellbase_witness: Option<Vec<u8>>,
}

/// A block as a mathematical value.
pub struct BlockFacts {
    pub number: u64,
    pub timestamp: u64,
    pub hash: [u8; 32],
    pub cellbase_witness: Option<Seq<u8>>,
}

impl View for Block {
    type V = BlockFacts;

    open spec fn view(&self) -> BlockFacts {
        BlockFacts {
            number: self.number,
            timestamp: self.timestamp,
            hash: self.hash,
            cellbase_witness: bytes_of(self.cellbase_witness),
        }
    }
}

impl Block {
    /// A copy of the block.
    pub fn duplicate(&self) -> (copy: Block)
        ensures
            copy@ == self@,
    {
        let cellbase_witness = match &self.cellbase_witness {
            Some(witness) => Some(bytes_copy(witness)),
            None => None,
        };
        Block {
            number: self.number,
            timestamp: self.timestamp,
            hash: self.hash,
            cellbase_witness,
        }
    }
}

/// The views of a sequence of blocks.
pub open spec fn facts_of(blocks: Seq<Block>) -> Seq<BlockFacts> {
    blocks.map_values(|block: Block| block@)
}

} // verus!
