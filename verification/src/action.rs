//! What the arena asks its caller to do.
use crate::model::Block;
use vstd::prelude::*;

verus! {

/// The answer to a request for memory.
#[derive(Debug, Clone, Copy, PartialEq, Eq, Structural)]
pub enum Allocation {
    /// The allocation starts at this address.
    Served(usize),
    /// The current block is too small: map a block of this size and pass its
    /// address on.
    NeedsBlock(usize),
}

/// A mapping to give back.
#[derive(Debug, Clone, Copy, PartialEq, Eq, Structural)]
pub struct Unmap {
    pub addr: usize,
    pub size: usize,
}

impl View for Unmap {
    type V = Block;

    open spec fn view(&self) -> Block {
        Block { start: self.addr as int, size: self.size as int }
    }
}

/// The blocks that a list of mappings to give back names, in its order.
pub open spec fn unmapped(list: Seq<Unmap>) -> Seq<Block> {
    Seq::new(list.len(), |i: int| list[i]@)
}

/// Bytes to copy between two places that do not overlap.
#[derive(Debug, Clone, Copy, PartialEq, Eq, Structural)]
pub struct ByteCopy {
    pub src: usize,
    pub dst: usize,
    pub len: usize,
}

/// The answer to a request for a larger allocation.
#[derive(Debug, Clone, Copy, PartialEq, Eq, Structural)]
pub enum Grown {
    /// The allocation was extended where it is.
    InPlace(usize),
    /// The allocation moves to `dst`: copy its bytes.
    Moved(ByteCopy),
    /// The allocation moves to a block yet to be mapped, of this size.
    NeedsBlock(usize),
}

/// A value and the place it goes to.
#[derive(Debug)]
pub struct Placement<T> {
    pub at: Allocation,
    pub value: T,
}

} // verus!
