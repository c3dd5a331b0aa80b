//! The record that describes a mapped block, and the sentinel that ends every
//! chain of blocks.
use crate::model::Block;
use vstd::prelude::*;

verus! {

/// The address that stands for the sentinel: the last one there is. It is not
/// null, and no block starts at it, since the end of a block is an address too.
pub const EMPTY_BLOCK_ADDR: usize = usize::MAX;

/// Metadata of one mapped block.
///
/// The first bytes of every block are set aside for its header; allocations
/// start behind them. `prev` links the blocks backward.
#[derive(Debug, Clone, Copy, PartialEq, Eq, Structural)]
pub struct BlockHeader {
    /// Address of the previous block in the chain, or of the sentinel for the
    /// first block.
    pub prev: usize,
    /// Address of the mapping.
    pub mmap_ptr: usize,
    /// Size of the whole mapping, header included.
    pub mmap_size: usize,
}

impl View for BlockHeader {
    type V = Block;

    open spec fn view(&self) -> Block {
        Block { start: self.mmap_ptr as int, size: self.mmap_size as int }
    }
}

impl BlockHeader {
    /// The size of a header.
    pub open spec fn bytes() -> int {
        vstd::layout::size_of::<BlockHeader>() as int
    }

    /// The alignment of a header.
    pub open spec fn alignment() -> int {
        vstd::layout::align_of::<BlockHeader>() as int
    }

    /// The bytes at the start of a block that its header takes.
    pub open spec fn span() -> int {
        crate::rounding::round_up(BlockHeader::bytes(), BlockHeader::alignment())
    }

    /// The bytes that a header takes at the start of a block need no padding.
    pub proof fn lemma_span()
        ensures
            0 < BlockHeader::alignment(),
            0 <= BlockHeader::bytes(),
            BlockHeader::span() == BlockHeader::bytes(),
    {
        broadcast use {vstd::layout::align_properties, vstd::layout::align_nonzero};

        crate::rounding::lemma_round_up_of_multiple(
            BlockHeader::bytes(),
            BlockHeader::alignment(),
        );
    }

    /// Builds the metadata of a freshly mapped block.
    pub fn new(prev: usize, mmap_ptr: usize, mmap_size: usize) -> (r: BlockHeader)
        ensures
            r.prev == prev,
            r.mmap_ptr == mmap_ptr,
            r.mmap_size == mmap_size,
    {
        BlockHeader { prev, mmap_ptr, mmap_size }
    }

    /// The previous block in the chain.
    pub fn prev(&self) -> (r: usize)
        ensures
            r == self.prev,
    {
        self.prev
    }

    /// The address of the mapping.
    pub fn ptr(&self) -> (r: usize)
        ensures
            r == self.mmap_ptr,
    {
        self.mmap_ptr
    }

    /// The size of the mapping.
    pub fn size(&self) -> (r: usize)
        ensures
            r == self.mmap_size,
    {
        self.mmap_size
    }
}

/// The sentinel that a new arena points at and that ends every chain of blocks.
#[derive(Debug)]
pub struct EmptyBlockWrapper(BlockHeader);

impl View for EmptyBlockWrapper {
    type V = BlockHeader;

    /// The header of the sentinel.
    closed spec fn view(&self) -> BlockHeader {
        self.0
    }
}

impl EmptyBlockWrapper {
    #[verifier::type_invariant]
    spec fn inv(self) -> bool {
        self.0 == (BlockHeader { prev: 0, mmap_ptr: 0, mmap_size: 0 })
    }

    /// The address of the sentinel, which is not null and not that of any block.
    pub fn get(&self) -> (r: usize)
        ensures
            r == EMPTY_BLOCK_ADDR,
            r != 0,
            forall|block: Block| #[trigger] block.valid() ==> block.start != r,
    {
        EMPTY_BLOCK_ADDR
    }

    /// The mapping address of the sentinel, which is null.
    pub fn get_ptr(&self) -> (r: usize)
        ensures
            r == self@.mmap_ptr,
            r == 0,
    {
        proof {
            use_type_invariant(self);
        }
        self.0.ptr()
    }

    /// The mapping size of the sentinel, which is zero.
    pub fn get_size(&self) -> (r: usize)
        ensures
            r == self@.mmap_size,
            r == 0,
    {
        proof {
            use_type_invariant(self);
        }
        self.0.size()
    }
}

/// The sentinel block.
///
/// It has no previous block and no mapping.
pub fn empty_block() -> (r: EmptyBlockWrapper)
    ensures
        r@ == (BlockHeader { prev: 0, mmap_ptr: 0, mmap_size: 0 }),
{
    EmptyBlockWrapper(BlockHeader::new(0, 0, 0))
}

/// The address of block `i` of a chain, or of the sentinel where there is none.
pub open spec fn link(chain: Seq<BlockHeader>, i: int) -> usize {
    if 0 <= i < chain.len() {
        chain[i].mmap_ptr
    } else {
        EMPTY_BLOCK_ADDR
    }
}

/// Every block links back to the one before it, and the first to the sentinel.
pub open spec fn chained(chain: Seq<BlockHeader>) -> bool {
    forall|i: int| 0 <= i < chain.len() ==> (#[trigger] chain[i]).prev == link(chain, i - 1)
}

/// The blocks that a chain describes, oldest first.
pub open spec fn blocks_of(chain: Seq<BlockHeader>) -> Seq<Block> {
    Seq::new(chain.len(), |i: int| chain[i]@)
}

} // verus!
