//! The arena as mathematics: a sequence of blocks and a cursor.
use crate::action::{Allocation, Grown};
use crate::block::BlockHeader;
use crate::error::AllocatorError;
use crate::layout::Shape;
use vstd::prelude::*;

verus! {

/// A mapped block of memory.
pub struct Block {
    pub start: int,
    pub size: int,
}

impl Block {
    /// One past the last address.
    pub open spec fn end(self) -> int {
        self.start + self.size
    }

    /// The first address behind the header.
    pub open spec fn payload(self) -> int {
        self.start + BlockHeader::span()
    }

    /// The two blocks share no address.
    pub open spec fn apart(self, other: Block) -> bool {
        self.end() <= other.start || other.end() <= self.start
    }

    /// The block lies in the address space, off null, and can hold a header.
    pub open spec fn valid(self) -> bool {
        &&& 0 < self.start
        &&& 0 < self.size
        &&& self.end() <= usize::MAX
        &&& self.start % BlockHeader::alignment() == 0
        &&& BlockHeader::span() <= self.size
    }
}

/// The state of an arena. The last block is the current one.
pub struct ArenaState {
    pub blocks: Seq<Block>,
    pub cursor: int,
    pub double_allowed: bool,
}

impl ArenaState {
    /// An arena that has mapped nothing.
    pub open spec fn empty() -> ArenaState {
        ArenaState { blocks: Seq::empty(), cursor: 0, double_allowed: true }
    }

    /// The address of the current mapping; null without one.
    pub open spec fn current(self) -> int {
        if self.blocks.len() == 0 {
            0
        } else {
            self.blocks.last().start
        }
    }

    /// The size of the current block; zero without one.
    pub open spec fn current_size(self) -> int {
        if self.blocks.len() == 0 {
            0
        } else {
            self.blocks.last().size
        }
    }

    /// One past the last address of the current block; null without one.
    pub open spec fn end(self) -> int {
        self.current() + self.current_size()
    }

    /// The first address of the current block that allocations can use.
    pub open spec fn payload(self) -> int {
        if self.blocks.len() == 0 {
            0
        } else {
            self.blocks.last().payload()
        }
    }

    /// Every block is valid, no two share an address, and the cursor lies behind
    /// the header of the current block and within it.
    pub open spec fn valid(self) -> bool {
        &&& forall|i: int| 0 <= i < self.blocks.len() ==> (#[trigger] self.blocks[i]).valid()
        &&& forall|i: int, j: int|
            0 <= i < j < self.blocks.len() ==> (#[trigger] self.blocks[i]).apart(
                #[trigger] self.blocks[j],
            )
        &&& self.payload() <= self.cursor <= self.end()
    }

    // Allocation in the current block.
    /// Where the next allocation of this alignment would start.
    pub open spec fn bump_at(self, align: int) -> int {
        crate::rounding::round_up(self.cursor, align)
    }

    /// The next allocation fits in the current block.
    pub open spec fn bump_fits(self, size: int, align: int) -> bool {
        self.bump_at(align) + size <= self.end()
    }

    /// The addresses of the next allocation can be computed.
    pub open spec fn bump_in_range(self, size: int, align: int) -> bool {
        &&& self.cursor + align - 1 <= usize::MAX
        &&& self.bump_at(align) + size <= usize::MAX
    }

    /// The state after the next allocation, in the current block.
    pub open spec fn bumped(self, size: int, align: int) -> ArenaState {
        ArenaState { cursor: self.bump_at(align) + size, ..self }
    }

    // Growth by one block.
    /// The pages that hold a header, the allocation and the padding it may need.
    pub open spec fn requested(size: int, align: int, page: int) -> int {
        crate::rounding::round_up(size + BlockHeader::bytes() + align - 1, page)
    }

    /// The size of a new block can be computed.
    pub open spec fn growth_in_range(size: int, align: int, page: int) -> bool {
        size + BlockHeader::bytes() + (align - 1) + (page - 1) <= usize::MAX
    }

    /// The size of the block to map for a request: twice the current block where
    /// doubling is allowed and that is enough, else the pages requested.
    pub open spec fn growth_size(self, size: int, align: int, page: int) -> int {
        let requested = Self::requested(size, align, page);
        let doubled = 2 * self.current_size();
        if self.double_allowed && requested < doubled <= usize::MAX {
            doubled
        } else if !self.double_allowed && requested < page {
            page
        } else {
            requested
        }
    }

    /// A mapping of `size` bytes at `start` can become a block: it is not null,
    /// it is aligned for a header, it does not wrap around, and it shares no
    /// address with a block that the arena has.
    pub open spec fn accepts(self, start: int, size: int) -> bool {
        &&& 0 < start
        &&& 0 < size
        &&& start + size <= usize::MAX
        &&& start % BlockHeader::alignment() == 0
        &&& forall|i: int|
            0 <= i < self.blocks.len() ==> (#[trigger] self.blocks[i]).apart(
                Block { start, size },
            )
    }

    /// The state with one more block, which becomes the current one.
    pub open spec fn grown(self, start: int, size: int) -> ArenaState {
        ArenaState {
            blocks: self.blocks.push(Block { start, size }),
            cursor: start + BlockHeader::span(),
            double_allowed: true,
        }
    }

    // Requests.
    /// The error that a request meets before any block is mapped for it.
    pub open spec fn request_error(self, shape: Shape, page: int) -> Option<AllocatorError> {
        if shape.size == 0 {
            Some(AllocatorError::ZeroSizedType)
        } else if !self.bump_in_range(shape.size, shape.align) {
            Some(AllocatorError::Overflow)
        } else if !self.bump_fits(shape.size, shape.align) && !Self::growth_in_range(
            shape.size,
            shape.align,
            page,
        ) {
            Some(AllocatorError::Overflow)
        } else {
            None
        }
    }

    /// The answer to a request that meets no error: an address in the current
    /// block if it fits there, else the size of the block to map for it.
    pub open spec fn answers(self, shape: Shape, page: int, answer: Allocation) -> bool {
        if self.bump_fits(shape.size, shape.align) {
            answer matches Allocation::Served(p) && p == self.bump_at(shape.align)
        } else {
            answer matches Allocation::NeedsBlock(n) && n == self.growth_size(
                shape.size,
                shape.align,
                page,
            )
        }
    }

    /// The state after a request that meets no error was answered.
    pub open spec fn answered(self, shape: Shape) -> ArenaState {
        if self.bump_fits(shape.size, shape.align) {
            self.bumped(shape.size, shape.align)
        } else {
            self
        }
    }

    // Resizing.
    /// An allocation of `size` bytes at `ptr` ends at the cursor.
    pub open spec fn is_last(self, ptr: int, size: int) -> bool {
        ptr + size == self.cursor
    }

    /// Growing looks at the room behind the allocation.
    pub open spec fn tries_in_place(self, ptr: int, old: Shape, new: Shape) -> bool {
        old.align >= new.align && self.is_last(ptr, old.size)
    }

    /// Growing extends the allocation where it is: the new size fits before the
    /// end of the block.
    pub open spec fn grows_in_place(self, ptr: int, old: Shape, new: Shape) -> bool {
        self.tries_in_place(ptr, old, new) && ptr + new.size <= self.end()
    }

    /// The error that growing meets before any block is mapped for it.
    pub open spec fn grow_error(self, ptr: int, old: Shape, new: Shape, page: int) -> Option<
        AllocatorError,
    > {
        if self.grows_in_place(ptr, old, new) {
            None
        } else {
            self.request_error(new, page)
        }
    }

    /// The answer to growing that meets no error.
    pub open spec fn grow_answers(
        self,
        ptr: int,
        old: Shape,
        new: Shape,
        page: int,
        answer: Grown,
    ) -> bool {
        if self.grows_in_place(ptr, old, new) {
            answer matches Grown::InPlace(p) && p == ptr
        } else if self.bump_fits(new.size, new.align) {
            answer matches Grown::Moved(copy) && {
                &&& copy.src == ptr
                &&& copy.dst == self.bump_at(new.align)
                &&& copy.len == old.size
            }
        } else {
            answer matches Grown::NeedsBlock(n) && n == self.growth_size(new.size, new.align, page)
        }
    }

    /// The state after growing that meets no error was answered.
    pub open spec fn grow_answered(self, ptr: int, old: Shape, new: Shape) -> ArenaState {
        if self.grows_in_place(ptr, old, new) {
            ArenaState { cursor: ptr + new.size, ..self }
        } else {
            self.answered(new)
        }
    }

    /// Shrinking moves the cursor back.
    pub open spec fn shrinks(self, ptr: int, old: Shape, new: Shape) -> bool {
        new.size <= old.size && old.align >= new.align && self.is_last(ptr, old.size)
    }

    /// The state after shrinking.
    pub open spec fn shrunk(self, ptr: int, old: Shape, new: Shape) -> ArenaState {
        if self.shrinks(ptr, old, new) {
            ArenaState { cursor: ptr + new.size, ..self }
        } else {
            self
        }
    }

    // Giving blocks back.
    /// The current block alone, with the cursor behind its header.
    pub open spec fn reset(self) -> ArenaState {
        ArenaState {
            blocks: seq![self.blocks.last()],
            cursor: self.payload(),
            double_allowed: false,
        }
    }

    /// The blocks that `reset` gives back: all but the current one, newest first.
    pub open spec fn reset_releases(self) -> Seq<Block> {
        self.blocks.drop_last().reverse()
    }

    /// No block at all.
    pub open spec fn cleared(self) -> ArenaState {
        ArenaState { blocks: Seq::empty(), cursor: 0, double_allowed: self.double_allowed }
    }

    /// The blocks that `clear` gives back: all, newest first.
    pub open spec fn clear_releases(self) -> Seq<Block> {
        self.blocks.reverse()
    }
}

} // verus!
