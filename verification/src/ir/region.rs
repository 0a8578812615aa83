//! Regions: ordered sequences of blocks.

use vstd::prelude::*;
use crate::error::Error;
use crate::ir::block::{block_node_count, block_wf, Block};

verus! {

/// A region: an ordered list of blocks, owned exclusively by the
/// operation that holds it (or by a builder before attachment).
#[derive(Debug)]
pub struct Region {
    /// The blocks, in order.
    pub blocks: Vec<Block>,
}

/// The number of operation nodes inside a region.
pub open spec fn region_node_count(r: Region) -> nat
    decreases r,
{
    blocks_node_count(r.blocks@)
}

pub open spec fn blocks_node_count(blocks: Seq<Block>) -> nat
    decreases blocks,
{
    if blocks.len() == 0 {
        0
    } else {
        block_node_count(blocks[0]) + blocks_node_count(blocks.drop_first())
    }
}

/// Well-formedness of a region: all its blocks are well formed.
pub open spec fn region_wf(r: Region) -> bool
    decreases r,
{
    blocks_wf(r.blocks@)
}

pub open spec fn blocks_wf(blocks: Seq<Block>) -> bool
    decreases blocks,
{
    if blocks.len() == 0 {
        true
    } else {
        block_wf(blocks[0]) && blocks_wf(blocks.drop_first())
    }
}

pub proof fn lemma_blocks_node_count_push(blocks: Seq<Block>, b: Block)
    ensures
        blocks_node_count(blocks.push(b)) == blocks_node_count(blocks) + block_node_count(b),
        blocks_wf(blocks.push(b)) <==> blocks_wf(blocks) && block_wf(b),
    decreases blocks,
{
    reveal_with_fuel(blocks_node_count, 2);
    reveal_with_fuel(blocks_wf, 2);
    if blocks.len() == 0 {
        assert(blocks.push(b).drop_first() =~= Seq::<Block>::empty());
        assert(blocks.push(b)[0] == b);
    } else {
        lemma_blocks_node_count_push(blocks.drop_first(), b);
        assert(blocks.push(b).drop_first() =~= blocks.drop_first().push(b));
        assert(blocks.push(b)[0] == blocks[0]);
    }
}

impl Region {
    /// Creates an empty region.
    pub fn new() -> (r: Region)
        ensures
            r.blocks@.len() == 0,
            region_wf(r),
            region_node_count(r) == 0,
    {
        Region { blocks: Vec::new() }
    }

    /// The number of blocks.
    pub fn block_count(&self) -> (r: usize)
        ensures
            r == self.blocks@.len(),
    {
        self.blocks.len()
    }

    /// Appends a block, taking ownership of it; returns its position.
    pub fn append_block(&mut self, block: Block) -> (r: usize)
        ensures
            final(self).blocks@ == old(self).blocks@.push(block),
            r == old(self).blocks@.len(),
            region_node_count(*final(self))
                == region_node_count(*old(self)) + block_node_count(block),
            region_wf(*final(self)) <==> region_wf(*old(self)) && block_wf(block),
    {
        let r = self.blocks.len();
        proof {
            lemma_blocks_node_count_push(self.blocks@, block);
        }
        self.blocks.push(block);
        r
    }

    /// The first block, if any.
    pub fn first_block(&self) -> (r: Option<&Block>)
        ensures
            match r {
                Some(b) => self.blocks@.len() > 0 && *b == self.blocks@[0],
                None => self.blocks@.len() == 0,
            },
    {
        if self.blocks.len() > 0 {
            Some(&self.blocks[0])
        } else {
            None
        }
    }

    /// The block at a position, or a position-out-of-bounds error.
    pub fn block(&self, index: usize) -> (r: Result<&Block, Error>)
        ensures
            match r {
                Ok(b) => index < self.blocks@.len() && *b == self.blocks@[index as int],
                Err(e) => {
                    &&& index >= self.blocks@.len()
                    &&& e matches Error::PositionOutOfBounds { name, value: _, index: k }
                        && name@ == "block"@ && k == index
                },
            },
    {
        if index < self.blocks.len() {
            Ok(&self.blocks[index])
        } else {
            Err(Error::PositionOutOfBounds {
                name: "block",
                value: String::new(),
                index,
            })
        }
    }
}

} // verus!
