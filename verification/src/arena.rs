//! The arena.
use crate::action::{Allocation, ByteCopy, Grown, Placement, Unmap};
use crate::block::{empty_block, BlockHeader};
use crate::error::AllocatorError;
use crate::layout::{Layout, Shape};
use crate::model::{ArenaState, Block};
use crate::platform::Platform;
use vstd::arithmetic::power2::*;
use vstd::prelude::*;

verus! {

/// A bump allocator over a chain of mapped blocks.
///
/// `current_block` is the address of the block that receives allocations,
/// `cursor` the next free address inside it, and `end` one past its last.
#[derive(Debug)]
pub struct Arena {
    /// Address of the block that receives new allocations.
    pub current_block: usize,
    /// Next allocation position inside the current block.
    pub cursor: usize,
    /// One past the last address of the current block.
    pub end: usize,
    /// Whether the next growth may double the size of the current block.
    ///
    /// `reset` switches this off for one growth.
    pub double_allowed: bool,
    /// The headers of the mapped blocks, oldest first.
    pub chain: Vec<BlockHeader>,
}

impl View for Arena {
    type V = ArenaState;

    open spec fn view(&self) -> ArenaState {
        ArenaState {
            blocks: crate::block::blocks_of(self.chain@),
            cursor: self.cursor as int,
            double_allowed: self.double_allowed,
        }
    }
}

impl Arena {
    /// The state is valid, the headers are linked from the newest block back to
    /// the sentinel, and the bounds are those of the current block.
    pub open spec fn wf(&self) -> bool {
        &&& self@.valid()
        &&& crate::block::chained(self.chain@)
        &&& self.current_block == crate::block::link(self.chain@, self.chain@.len() - 1)
        &&& self.end == self@.end()
    }

    /// Creates an empty arena, which has mapped no memory.
    pub fn new() -> (r: Arena)
        ensures
            r.wf(),
            r@ == ArenaState::empty(),
            r.current_block == crate::block::EMPTY_BLOCK_ADDR,
            r.cursor == 0,
            r.end == 0,
            r.double_allowed,
            r.chain@.len() == 0,
    {
        let sentinel = empty_block();
        let r = Arena {
            current_block: sentinel.get(),
            cursor: sentinel.get_ptr(),
            end: sentinel.get_ptr(),
            double_allowed: true,
            chain: Vec::new(),
        };
        assert(r@.blocks =~= Seq::<Block>::empty());
        r
    }

    /// Rounds `size` up to the next multiple of `align`, a power of two. `None`
    /// means that the sum on the way there overflows.
    pub fn align_up(size: usize, align: usize) -> (r: Option<usize>)
        requires
            is_pow2(align as int),
        ensures
            r is Some <==> size + align - 1 <= usize::MAX,
            r matches Some(v) ==> {
                &&& v == crate::rounding::round_up(size as int, align as int)
                &&& v as int % align as int == 0
                &&& size <= v < size + align
            },
    {
        proof {
            reveal(is_pow2);
            crate::rounding::lemma_round_up_bounds(size as int, align as int);
        }
        match size.checked_add(align - 1) {
            Some(sum) => {
                proof {
                    lemma_mask_is_round_up(size as int, sum, align);
                }
                Some(sum & !(align - 1))
            },
            None => None,
        }
    }

    /// Rounds `size` up to the next multiple of `align`, a power of two, where
    /// the sum on the way there is known to fit.
    pub fn align_up_unchecked(size: usize, align: usize) -> (r: usize)
        requires
            is_pow2(align as int),
            size + align - 1 <= usize::MAX,
        ensures
            r == crate::rounding::round_up(size as int, align as int),
            r as int % align as int == 0,
            size <= r < size + align,
    {
        proof {
            reveal(is_pow2);
            crate::rounding::lemma_round_up_bounds(size as int, align as int);
            lemma_mask_is_round_up(size as int, (size + align - 1) as usize, align);
        }
        (size + (align - 1)) & !(align - 1)
    }

    /// Attempts to satisfy an allocation from the current block only.
    ///
    /// The cursor is rounded up to the alignment. If the allocation fits before
    /// `end`, the cursor advances behind it and its address is returned; if not,
    /// the arena is left as it is.
    pub fn try_allocate_fast(&mut self, size: usize, align: usize) -> (r: Option<usize>)
        requires
            old(self).wf(),
            is_pow2(align as int),
            old(self)@.bump_in_range(size as int, align as int),
        ensures
            final(self).wf(),
            old(self)@.bump_fits(size as int, align as int) ==> {
                &&& r matches Some(p) && p == old(self)@.bump_at(align as int)
                &&& final(self)@ == old(self)@.bumped(size as int, align as int)
                &&& final(self).current_block == old(self).current_block
                &&& final(self).end == old(self).end
                &&& final(self).chain == old(self).chain
            },
            !old(self)@.bump_fits(size as int, align as int) ==> {
                &&& r is None
                &&& *final(self) == *old(self)
            },
            match r {
                Some(p) => {
                    &&& p as int % align as int == 0
                    &&& old(self).cursor <= p < old(self).cursor + align
                    &&& p + size <= old(self).end
                    &&& final(self).cursor == p + size
                    &&& final(self).double_allowed == old(self).double_allowed
                },
                None => forall|place: int|
                    old(self).cursor <= place && #[trigger] (place % align as int) == 0 ==> place
                        + size > old(self).end,
            },
    {
        proof {
            reveal(is_pow2);
            crate::rounding::lemma_round_up_bounds(self.cursor as int, align as int);
        }
        let aligned_cursor: usize = Self::align_up_unchecked(self.cursor, align);
        let alloc_end: usize = aligned_cursor + size;
        if alloc_end > self.end {
            proof {
                assert forall|place: int|
                    old(self).cursor <= place && #[trigger] (place % align as int) == 0 implies place
                    + size > old(self).end by {
                    crate::rounding::lemma_round_up_is_least(
                        self.cursor as int,
                        align as int,
                        place,
                    );
                }
            }
            return None;
        }
        self.cursor = alloc_end;
        assert(self@ == old(self)@.bumped(size as int, align as int));
        Some(aligned_cursor)
    }

    /// The size of the block to map for a request that does not fit. `None` means
    /// that computing it overflows.
    pub fn growth_size(&self, platform: &Platform, size: usize, align: usize) -> (r: Option<usize>)
        requires
            self.wf(),
            is_pow2(align as int),
        ensures
            r is Some <==> ArenaState::growth_in_range(size as int, align as int, platform@),
            r matches Some(n) ==> n == self@.growth_size(size as int, align as int, platform@),
    {
        proof {
            reveal(is_pow2);
        }
        let page: usize = platform.get_page_size();
        let header: usize = core::mem::size_of::<BlockHeader>();
        let unrounded: usize = match size.checked_add(header) {
            Some(sum) => match sum.checked_add(align - 1) {
                Some(sum) => sum,
                None => {
                    return None;
                },
            },
            None => {
                return None;
            },
        };
        let requested: usize = match Self::align_up(unrounded, page) {
            Some(requested) => requested,
            None => {
                return None;
            },
        };
        if self.double_allowed {
            match self.current_size().checked_mul(2) {
                Some(doubled) => if doubled > requested {
                    Some(doubled)
                } else {
                    Some(requested)
                },
                None => Some(requested),
            }
        } else if requested > page {
            Some(requested)
        } else {
            proof {
                crate::rounding::lemma_round_up_bounds(unrounded as int, page as int);
            }
            Some(page)
        }
    }

    /// The size of the current block; zero for an empty arena.
    fn current_size(&self) -> (r: usize)
        requires
            self.wf(),
        ensures
            r == self@.current_size(),
    {
        if self.chain.len() == 0 {
            empty_block().get_size()
        } else {
            self.chain[self.chain.len() - 1].size()
        }
    }

    /// Makes a new block the current one and allocates from it.
    ///
    /// `mapped` is the address of a fresh mapping of `growth_size` bytes, or null
    /// if that many bytes could not be mapped. Such a block always holds the
    /// request. Doubling is allowed again afterwards, mapped or not.
    pub fn try_allocate_slow(
        &mut self,
        platform: &Platform,
        size: usize,
        align: usize,
        mapped: usize,
    ) -> (r: Result<usize, AllocatorError>)
        requires
            old(self).wf(),
            is_pow2(align as int),
            mapped != 0 && ArenaState::growth_in_range(size as int, align as int, platform@)
                ==> old(self)@.accepts(
                mapped as int,
                old(self)@.growth_size(size as int, align as int, platform@),
            ),
        ensures
            final(self).wf(),
            !ArenaState::growth_in_range(size as int, align as int, platform@) ==> {
                &&& r == Err::<usize, AllocatorError>(AllocatorError::Overflow)
                &&& *final(self) == *old(self)
            },
            ArenaState::growth_in_range(size as int, align as int, platform@) && mapped == 0 ==> {
                &&& r == Err::<usize, AllocatorError>(AllocatorError::OutOfMemory)
                &&& final(self)@ == (ArenaState { double_allowed: true, ..old(self)@ })
            },
            ArenaState::growth_in_range(size as int, align as int, platform@) && mapped != 0 ==> {
                let grown = old(self)@.grown(
                    mapped as int,
                    old(self)@.growth_size(size as int, align as int, platform@),
                );
                &&& r matches Ok(p) && p == grown.bump_at(align as int)
                &&& final(self)@ == grown.bumped(size as int, align as int)
                &&& final(self).current_block == mapped
                &&& final(self).chain@.last().prev == old(self).current_block
            },
            r matches Ok(p) ==> {
                let header = vstd::layout::size_of::<BlockHeader>();
                let count = old(self).chain@.len() as int;
                &&& p as int % align as int == 0
                &&& mapped + header <= p < mapped + header + align
                &&& final(self).cursor == p + size
                &&& final(self).cursor <= final(self).end
                &&& final(self).double_allowed
                &&& final(self).chain@.len() == count + 1
                &&& final(self).chain@.take(count) == old(self).chain@
                &&& final(self).chain@[count].mmap_ptr == mapped
                &&& final(self).chain@[count].prev == old(self).current_block
                &&& final(self).end == mapped + final(self).chain@[count].mmap_size
            },
    {
        let prev_block_header: usize = self.current_block;
        let new_block_size: usize = match self.growth_size(platform, size, align) {
            Some(n) => n,
            None => {
                return Err(AllocatorError::Overflow);
            },
        };
        let page: usize = platform.get_page_size();
        let ghost shape = Shape { size: size as int, align: align as int };
        proof {
            reveal(is_pow2);
            BlockHeader::lemma_span();
            crate::laws::law_growth_holds_request(self@, shape, page as int);
        }
        self.double_allowed = true;
        match self.new_block(new_block_size, prev_block_header, mapped) {
            Ok(_) => {
                proof {
                    let grown = old(self)@.grown(mapped as int, new_block_size as int);
                    assert(self@ == grown);
                    assert(grown.blocks.last().end() <= usize::MAX);
                    crate::rounding::lemma_round_up_bounds(grown.cursor, align as int);
                }
                assert(self.chain@.take(old(self).chain@.len() as int) =~= old(self).chain@);
                match self.try_allocate_fast(size, align) {
                    Some(p) => Ok(p),
                    None => vstd::pervasive::unreached(),
                }
            },
            Err(err) => Err(err),
        }
    }

    /// The error that a request meets before any block is mapped for it: it asks
    /// for no bytes, or its addresses or its block size overflow.
    pub fn request_error(&self, platform: &Platform, layout: Layout) -> (r: Option<AllocatorError>)
        requires
            self.wf(),
        ensures
            r == self@.request_error(layout@, platform@),
    {
        let (size, align): (usize, usize) = (layout.size(), layout.align());
        if size == 0 {
            return Some(AllocatorError::ZeroSizedType);
        }
        match Self::bump_end(self.cursor, size, align) {
            Some(alloc_end) => {
                if alloc_end > self.end && self.growth_size(platform, size, align).is_none() {
                    Some(AllocatorError::Overflow)
                } else {
                    None
                }
            },
            None => Some(AllocatorError::Overflow),
        }
    }

    /// Where an allocation that starts at the aligned `cursor` ends. `None` means
    /// that computing it overflows.
    pub fn bump_end(cursor: usize, size: usize, align: usize) -> (r: Option<usize>)
        requires
            is_pow2(align as int),
        ensures
            r is Some <==> {
                &&& cursor + align - 1 <= usize::MAX
                &&& crate::rounding::round_up(cursor as int, align as int) + size <= usize::MAX
            },
            r matches Some(e) ==> e == crate::rounding::round_up(cursor as int, align as int)
                + size,
    {
        match Self::align_up(cursor, align) {
            Some(aligned) => aligned.checked_add(size),
            None => None,
        }
    }

    /// Attempts to allocate memory for `layout`.
    ///
    /// A request for no bytes is rejected. Any other is served from the current
    /// block, or else answered with the size of the block to map for it; the
    /// address of that block goes to `try_allocate_slow`.
    pub fn try_allocate(&mut self, platform: &Platform, layout: Layout) -> (r: Result<
        Allocation,
        AllocatorError,
    >)
        requires
            old(self).wf(),
        ensures
            final(self).wf(),
            match old(self)@.request_error(layout@, platform@) {
                Some(err) => {
                    &&& r == Err::<Allocation, AllocatorError>(err)
                    &&& *final(self) == *old(self)
                },
                None => {
                    &&& r matches Ok(answer) && old(self)@.answers(layout@, platform@, answer)
                    &&& final(self)@ == old(self)@.answered(layout@)
                },
            },
            r matches Ok(Allocation::Served(p)) ==> {
                &&& p as int % layout@.align == 0
                &&& old(self).cursor <= p < old(self).cursor + layout@.align
                &&& p + layout@.size <= old(self).end
                &&& final(self).cursor == p + layout@.size
                &&& final(self).current_block == old(self).current_block
                &&& final(self).end == old(self).end
                &&& final(self).chain == old(self).chain
            },
            r matches Ok(Allocation::NeedsBlock(n)) ==> *final(self) == *old(self),
    {
        let (size, align): (usize, usize) = (layout.size(), layout.align());
        if let Some(err) = self.request_error(platform, layout) {
            return Err(err);
        }
        if let Some(ptr) = self.try_allocate_fast(size, align) {
            Ok(Allocation::Served(ptr))
        } else {
            match self.growth_size(platform, size, align) {
                Some(n) => Ok(Allocation::NeedsBlock(n)),
                None => vstd::pervasive::unreached(),
            }
        }
    }

    /// Allocates memory for `layout`, which meets no error.
    ///
    /// This is the convenience layer over `try_allocate`.
    pub fn allocate(&mut self, platform: &Platform, layout: Layout) -> (r: Allocation)
        requires
            old(self).wf(),
            old(self)@.request_error(layout@, platform@) is None,
        ensures
            final(self).wf(),
            old(self)@.answers(layout@, platform@, r),
            final(self)@ == old(self)@.answered(layout@),
            r matches Allocation::Served(p) ==> {
                &&& p as int % layout@.align == 0
                &&& old(self).cursor <= p < old(self).cursor + layout@.align
                &&& p + layout@.size <= old(self).end
                &&& final(self).cursor == p + layout@.size
                &&& final(self).current_block == old(self).current_block
                &&& final(self).end == old(self).end
                &&& final(self).chain == old(self).chain
            },
            r matches Allocation::NeedsBlock(n) ==> *final(self) == *old(self),
    {
        match self.try_allocate(platform, layout) {
            Ok(answer) => answer,
            Err(_) => vstd::pervasive::unreached(),
        }
    }

    /// Allocates space for one `T` and pairs the value with its place.
    ///
    /// Values are not dropped by `reset`, `clear` or `drop`.
    pub fn alloc_val<T>(&mut self, platform: &Platform, val: T) -> (r: Placement<T>)
        requires
            old(self).wf(),
            old(self)@.request_error(Shape::of::<T>(), platform@) is None,
        ensures
            final(self).wf(),
            old(self)@.answers(Shape::of::<T>(), platform@, r.at),
            final(self)@ == old(self)@.answered(Shape::of::<T>()),
            r.value == val,
            r.at matches Allocation::Served(p) ==> {
                &&& p as int % vstd::layout::align_of::<T>() as int == 0
                &&& old(self).cursor <= p < old(self).cursor + vstd::layout::align_of::<T>()
                &&& p + vstd::layout::size_of::<T>() <= old(self).end
                &&& final(self).cursor == p + vstd::layout::size_of::<T>()
            },
            r.at matches Allocation::NeedsBlock(n) ==> *final(self) == *old(self),
    {
        let layout = Layout::new::<T>();
        let at = self.allocate(platform, layout);
        Placement { at, value: val }
    }

    /// Makes the mapping at `ptr` the current block; null means that there is no
    /// mapping.
    fn new_block(&mut self, new_block_size: usize, prev_block_header: usize, ptr: usize) -> (r:
        Result<(), AllocatorError>)
        requires
            old(self).wf(),
            prev_block_header == old(self).current_block,
            BlockHeader::span() <= new_block_size,
            ptr != 0 ==> old(self)@.accepts(ptr as int, new_block_size as int),
        ensures
            final(self).wf(),
            ptr == 0 ==> {
                &&& r == Err::<(), AllocatorError>(AllocatorError::OutOfMemory)
                &&& *final(self) == *old(self)
            },
            ptr != 0 ==> {
                &&& r is Ok
                &&& final(self)@ == (ArenaState {
                    double_allowed: old(self).double_allowed,
                    ..old(self)@.grown(ptr as int, new_block_size as int)
                })
                &&& final(self).chain@ == old(self).chain@.push(
                    BlockHeader { prev: prev_block_header, mmap_ptr: ptr, mmap_size: new_block_size },
                )
            },
    {
        if ptr == 0 {
            return Err(AllocatorError::OutOfMemory);
        }
        let new_block_header = BlockHeader::new(prev_block_header, ptr, new_block_size);
        self.end = ptr + new_block_size;
        self.write_metadata(new_block_header);
        proof {
            let before = old(self)@.blocks;
            let block = Block { start: ptr as int, size: new_block_size as int };
            assert(self@.blocks =~= before.push(block));
            assert forall|i: int| 0 <= i < self@.blocks.len() implies (
            #[trigger] self@.blocks[i]).valid() by {
                if i < before.len() {
                    assert(before[i].valid());
                }
            }
            assert forall|i: int, j: int| 0 <= i < j < self@.blocks.len() implies (
            #[trigger] self@.blocks[i]).apart(#[trigger] self@.blocks[j]) by {
                if j < before.len() {
                    assert(before[i].apart(before[j]));
                } else {
                    assert(before[i].apart(block));
                }
            }
            assert(self@.blocks.last() == block);
            assert forall|i: int| 0 <= i < self.chain@.len() implies (
            #[trigger] self.chain@[i]).prev == crate::block::link(self.chain@, i - 1) by {
                if i < old(self).chain@.len() {
                    assert(self.chain@[i] == old(self).chain@[i]);
                }
            }
        }
        Ok(())
    }

    /// Appends a header to the chain: its block becomes the current one, with the
    /// cursor behind the header.
    fn write_metadata(&mut self, block_header: BlockHeader)
        requires
            block_header.mmap_ptr + BlockHeader::span() <= usize::MAX,
        ensures
            final(self).chain@ == old(self).chain@.push(block_header),
            final(self).current_block == block_header.mmap_ptr,
            final(self).cursor == block_header@.payload(),
            final(self).end == old(self).end,
            final(self).double_allowed == old(self).double_allowed,
    {
        self.reset_cursor_to(&block_header);
        self.chain.push(block_header);
        self.current_block = block_header.ptr();
    }

    /// Places the cursor at the first address after a block header.
    fn reset_cursor_to(&mut self, block: &BlockHeader)
        requires
            block.mmap_ptr + BlockHeader::span() <= usize::MAX,
        ensures
            final(self).cursor == block@.payload(),
            final(self).current_block == old(self).current_block,
            final(self).end == old(self).end,
            final(self).double_allowed == old(self).double_allowed,
            final(self).chain == old(self).chain,
    {
        vstd::layout::layout_for_type_is_valid::<BlockHeader>();
        proof {
            crate::rounding::lemma_pow2_divides_half_range(
                vstd::layout::align_of::<BlockHeader>() as usize,
            );
        }
        self.cursor = block.ptr() + Self::align_up_unchecked(
            core::mem::size_of::<BlockHeader>(),
            core::mem::align_of::<BlockHeader>(),
        );
    }

    /// Releases older blocks and rewinds the current block for reuse.
    ///
    /// The latest block is kept, because it is often the largest one reached so
    /// far, and becomes the only block of the chain. The mappings to give back
    /// are returned, newest first.
    pub fn reset(&mut self) -> (released: Vec<Unmap>)
        requires
            old(self).wf(),
            old(self)@.blocks.len() > 0,
        ensures
            final(self).wf(),
            final(self)@ == old(self)@.reset(),
            final(self).current_block == old(self).current_block,
            final(self).end == old(self).end,
            final(self).chain@.len() == 1,
            final(self).chain@[0].prev == crate::block::EMPTY_BLOCK_ADDR,
            crate::action::unmapped(released@) == old(self)@.reset_releases(),
            ({
                let count = old(self).chain@.len();
                &&& released@.len() == count - 1
                &&& forall|k: int|
                    0 <= k < released@.len() ==> (#[trigger] released@[k]).addr == old(
                        self,
                    ).chain@[count - 2 - k].mmap_ptr && released@[k].size == old(
                        self,
                    ).chain@[count - 2 - k].mmap_size
                &&& final(self).chain@[0].mmap_ptr == old(self).chain@[count - 1].mmap_ptr
                &&& final(self).chain@[0].mmap_size == old(self).chain@[count - 1].mmap_size
            }),
            final(self).cursor == old(self).current_block + vstd::layout::size_of::<BlockHeader>(),
            !final(self).double_allowed,
    {
        let last: usize = self.chain.len() - 1;
        let ghost count = self.chain@.len() as int;
        let current: BlockHeader = self.chain[last];
        proof {
            assert(self@.blocks[count - 1].valid());
        }
        let released = self.deallocate_blocks_until_stop(
            current.prev(),
            empty_block().get(),
            Ghost(count - 2),
            Ghost(-1),
        );
        assert(self.chain@ =~= seq![current]);
        self.reset_cursor_to(&current);
        self.chain[0] = BlockHeader::new(empty_block().get(), current.ptr(), current.size());
        self.double_allowed = false;
        proof {
            BlockHeader::lemma_span();
            assert(old(self)@.blocks.last() == current@);
            assert(self@.blocks =~= seq![current@]);
            assert(self@.blocks.last() == current@);
            assert(current@.valid());
            assert(crate::action::unmapped(released@) =~= old(self)@.reset_releases());
        }
        released
    }

    /// Takes the blocks from `current_block` backward to `stop_block`, which
    /// stays, out of the chain, and lists their mappings in that order.
    ///
    /// The two are the blocks at positions `from` and `until` of the chain.
    fn deallocate_blocks_until_stop(
        &mut self,
        current_block: usize,
        stop_block: usize,
        Ghost(from): Ghost<int>,
        Ghost(until): Ghost<int>,
    ) -> (released: Vec<Unmap>)
        requires
            old(self).wf(),
            -1 <= until <= from < old(self).chain@.len(),
            current_block == crate::block::link(old(self).chain@, from),
            stop_block == crate::block::link(old(self).chain@, until),
        ensures
            final(self).chain@ == old(self).chain@.subrange(0, until + 1)
                + old(self).chain@.subrange(from + 1, old(self).chain@.len() as int),
            final(self).current_block == old(self).current_block,
            final(self).cursor == old(self).cursor,
            final(self).end == old(self).end,
            final(self).double_allowed == old(self).double_allowed,
            released@.len() == from - until,
            forall|k: int|
                0 <= k < released@.len() ==> (#[trigger] released@[k]).addr == old(
                    self,
                ).chain@[from - k].mmap_ptr && released@[k].size == old(
                    self,
                ).chain@[from - k].mmap_size,
    {
        let mut curr_block: usize = current_block;
        let mut released: Vec<Unmap> = Vec::new();
        let ghost chain = self.chain@;
        let ghost mut pos = from;
        proof {
            old(self).lemma_addresses_distinct();
            lemma_without_nothing(chain, from);
        }
        while curr_block != stop_block
            invariant
                -1 <= until <= pos <= from < chain.len(),
                crate::block::chained(chain),
                distinct(chain),
                curr_block == crate::block::link(chain, pos),
                stop_block == crate::block::link(chain, until),
                self.chain@ == without(chain, pos, from),
                self.current_block == old(self).current_block,
                self.cursor == old(self).cursor,
                self.end == old(self).end,
                self.double_allowed == old(self).double_allowed,
                released@.len() == from - pos,
                forall|k: int|
                    0 <= k < released@.len() ==> (#[trigger] released@[k]).addr == chain[from
                        - k].mmap_ptr && released@[k].size == chain[from - k].mmap_size,
            decreases pos - until,
        {
            assert(pos > until);
            proof {
                lemma_without_step(chain, pos, from);
            }
            let index: usize = self.position(curr_block);
            let block: BlockHeader = self.chain[index];
            let prev: usize = block.prev();
            released.push(self.dealloc(&block));
            self.chain.remove(index);
            curr_block = prev;
            proof {
                pos = pos - 1;
            }
        }
        assert(pos == until) by {
            if pos > until {
                assert(chain[pos].mmap_ptr == curr_block);
                old(self).lemma_addresses_off_sentinel(pos);
                if until >= 0 {
                    reveal(distinct);
                    assert(chain[until].mmap_ptr == curr_block);
                }
            }
        }
        reveal(without);
        released
    }

    /// The position in the chain of the block at `addr`.
    fn position(&self, addr: usize) -> (r: usize)
        requires
            exists|i: int| 0 <= i < self.chain@.len() && (#[trigger] self.chain@[i]).mmap_ptr == addr,
        ensures
            r < self.chain@.len(),
            self.chain@[r as int].mmap_ptr == addr,
    {
        let mut k: usize = self.chain.len() - 1;
        while self.chain[k].ptr() != addr
            invariant
                k < self.chain@.len(),
                exists|i: int| 0 <= i <= k && (#[trigger] self.chain@[i]).mmap_ptr == addr,
            decreases k,
        {
            k = k - 1;
        }
        k
    }

    /// The mapping of one block.
    fn dealloc(&self, block: &BlockHeader) -> (r: Unmap)
        ensures
            r@ == block@,
            r.addr == block.mmap_ptr,
            r.size == block.mmap_size,
    {
        Unmap { addr: block.ptr(), size: block.size() }
    }

    /// Releases every mapped block and returns the arena to the empty sentinel
    /// state. The mappings to give back are returned, newest first.
    pub fn clear(&mut self) -> (released: Vec<Unmap>)
        requires
            old(self).wf(),
        ensures
            final(self).wf(),
            final(self)@ == old(self)@.cleared(),
            final(self).current_block == crate::block::EMPTY_BLOCK_ADDR,
            final(self).cursor == 0,
            final(self).end == 0,
            final(self).chain@.len() == 0,
            crate::action::unmapped(released@) == old(self)@.clear_releases(),
            final(self).double_allowed == old(self).double_allowed,
            released@.len() == old(self).chain@.len(),
            forall|k: int|
                0 <= k < released@.len() ==> (#[trigger] released@[k]).addr == old(
                    self,
                ).chain@[old(self).chain@.len() - 1 - k].mmap_ptr && released@[k].size == old(
                    self,
                ).chain@[old(self).chain@.len() - 1 - k].mmap_size,
    {
        let sentinel = empty_block();
        let ghost count = self.chain@.len() as int;
        let released = self.deallocate_blocks_until_stop(
            self.current_block,
            sentinel.get(),
            Ghost(count - 1),
            Ghost(-1),
        );
        self.current_block = sentinel.get();
        self.cursor = sentinel.get_ptr();
        self.end = sentinel.get_ptr();
        proof {
            assert(self@.blocks =~= Seq::<Block>::empty());
            assert(crate::action::unmapped(released@) =~= old(self)@.clear_releases());
        }
        released
    }

    /// Ends the arena. The mappings to give back are returned, newest first.
    pub fn drop(self) -> (released: Vec<Unmap>)
        requires
            self.wf(),
        ensures
            crate::action::unmapped(released@) == self@.clear_releases(),
            released@.len() == self.chain@.len(),
            forall|k: int|
                0 <= k < released@.len() ==> (#[trigger] released@[k]).addr
                    == self.chain@[self.chain@.len() - 1 - k].mmap_ptr && released@[k].size
                    == self.chain@[self.chain@.len() - 1 - k].mmap_size,
    {
        let mut arena = self;
        arena.clear()
    }

    /// Whether a mapping of `size` bytes at `start` can become a block of this
    /// arena.
    pub fn accepts(&self, start: usize, size: usize) -> (r: bool)
        requires
            self.wf(),
        ensures
            r == self@.accepts(start as int, size as int),
    {
        vstd::layout::layout_for_type_is_valid::<BlockHeader>();
        let align: usize = core::mem::align_of::<BlockHeader>();
        if start == 0 || size == 0 || size > usize::MAX - start || start % align != 0 {
            return false;
        }
        let ghost mapping = Block { start: start as int, size: size as int };
        let mut k: usize = 0;
        while k < self.chain.len()
            invariant
                self.wf(),
                start + size <= usize::MAX,
                mapping == (Block { start: start as int, size: size as int }),
                k <= self.chain@.len(),
                forall|i: int| 0 <= i < k ==> (#[trigger] self@.blocks[i]).apart(mapping),
            decreases self.chain@.len() - k,
        {
            let block: BlockHeader = self.chain[k];
            assert(self@.blocks[k as int] == block@);
            assert(self@.blocks[k as int].valid());
            if start < block.ptr() + block.size() && block.ptr() < start + size {
                assert(!self@.blocks[k as int].apart(mapping));
                return false;
            }
            k = k + 1;
        }
        true
    }

    /// Whether an allocation of `size` bytes at `ptr` is the most recent one.
    ///
    /// Only the most recent allocation can be resized in place, because only that
    /// allocation ends exactly at the cursor.
    pub fn is_last_allocation(&self, ptr: usize, size: usize) -> (r: bool)
        ensures
            r == self@.is_last(ptr as int, size as int),
            r == (ptr + size == self.cursor),
    {
        size <= self.cursor && ptr == self.cursor - size
    }

    /// The error that `grow` meets before any block is mapped for it.
    pub fn grow_error(
        &self,
        platform: &Platform,
        ptr: usize,
        old_layout: Layout,
        new_layout: Layout,
    ) -> (r: Option<AllocatorError>)
        requires
            self.wf(),
            old_layout@.size <= new_layout@.size,
        ensures
            r == self@.grow_error(ptr as int, old_layout@, new_layout@, platform@),
    {
        let old_size: usize = old_layout.size();
        if old_layout.align() >= new_layout.align() && self.is_last_allocation(ptr, old_size) {
            let delta: usize = new_layout.size() - old_size;
            if delta <= self.end - self.cursor {
                return None;
            }
        }
        self.request_error(platform, new_layout)
    }

    /// Resizes an allocation to a larger layout.
    ///
    /// If the allocation is the last one in the current block, its alignment is
    /// enough and the new size fits, the cursor advances to the new end and the
    /// allocation stays where it is. Otherwise the bytes move to a new
    /// allocation; the old one is not freed and remains part of the arena until
    /// `reset`, `clear` or `drop`. If that needs a block, its address goes to
    /// `grow_slow`.
    pub fn grow(
        &mut self,
        platform: &Platform,
        ptr: usize,
        old_layout: Layout,
        new_layout: Layout,
    ) -> (r: Grown)
        requires
            old(self).wf(),
            old_layout@.size <= new_layout@.size,
            old(self)@.grow_error(ptr as int, old_layout@, new_layout@, platform@) is None,
        ensures
            final(self).wf(),
            old(self)@.grow_answers(ptr as int, old_layout@, new_layout@, platform@, r),
            final(self)@ == old(self)@.grow_answered(ptr as int, old_layout@, new_layout@),
            old(self)@.grows_in_place(ptr as int, old_layout@, new_layout@) ==> {
                &&& final(self).cursor == ptr + new_layout@.size
                &&& final(self).current_block == old(self).current_block
                &&& final(self).end == old(self).end
                &&& final(self).chain == old(self).chain
            },
            match r {
                Grown::InPlace(p) => {
                    &&& p == ptr
                    &&& ptr + old_layout@.size == old(self).cursor
                    &&& ptr + new_layout@.size <= old(self).end
                    &&& final(self).cursor == ptr + new_layout@.size
                },
                Grown::Moved(copy) => {
                    &&& copy.src == ptr
                    &&& copy.len == old_layout@.size
                    &&& copy.dst as int % new_layout@.align == 0
                    &&& old(self).cursor <= copy.dst < old(self).cursor + new_layout@.align
                    &&& copy.dst + new_layout@.size <= old(self).end
                    &&& final(self).cursor == copy.dst + new_layout@.size
                    &&& final(self).chain == old(self).chain
                },
                Grown::NeedsBlock(n) => *final(self) == *old(self),
            },
            ptr + old_layout@.size == old(self).cursor && new_layout@.align <= old_layout@.align
                && ptr + new_layout@.size <= old(self).end ==> r is InPlace,
    {
        let is_valid_align: bool = old_layout.align() >= new_layout.align();
        if is_valid_align && self.is_last_allocation(ptr, old_layout.size()) {
            let delta: usize = new_layout.size() - old_layout.size();
            if delta <= self.end - self.cursor {
                self.cursor = self.cursor + delta;
                return Grown::InPlace(ptr);
            }
        }
        match self.allocate(platform, new_layout) {
            Allocation::Served(new_ptr) => Grown::Moved(
                ByteCopy { src: ptr, dst: new_ptr, len: old_layout.size() },
            ),
            Allocation::NeedsBlock(n) => Grown::NeedsBlock(n),
        }
    }

    /// Moves an allocation that `grow` could not place to a new block.
    ///
    /// `mapped` is the address of a fresh mapping of `growth_size` bytes, or null
    /// if that many bytes could not be mapped.
    pub fn grow_slow(
        &mut self,
        platform: &Platform,
        ptr: usize,
        old_layout: Layout,
        new_layout: Layout,
        mapped: usize,
    ) -> (r: Result<ByteCopy, AllocatorError>)
        requires
            old(self).wf(),
            mapped != 0 && ArenaState::growth_in_range(
                new_layout@.size,
                new_layout@.align,
                platform@,
            ) ==> old(self)@.accepts(
                mapped as int,
                old(self)@.growth_size(new_layout@.size, new_layout@.align, platform@),
            ),
        ensures
            final(self).wf(),
            !ArenaState::growth_in_range(new_layout@.size, new_layout@.align, platform@) ==> {
                &&& r == Err::<ByteCopy, AllocatorError>(AllocatorError::Overflow)
                &&& *final(self) == *old(self)
            },
            ArenaState::growth_in_range(new_layout@.size, new_layout@.align, platform@) && mapped
                == 0 ==> {
                &&& r == Err::<ByteCopy, AllocatorError>(AllocatorError::OutOfMemory)
                &&& final(self)@ == (ArenaState { double_allowed: true, ..old(self)@ })
            },
            ArenaState::growth_in_range(new_layout@.size, new_layout@.align, platform@) && mapped
                != 0 ==> {
                let grown = old(self)@.grown(
                    mapped as int,
                    old(self)@.growth_size(new_layout@.size, new_layout@.align, platform@),
                );
                &&& r matches Ok(copy) && {
                    &&& copy.src == ptr
                    &&& copy.dst == grown.bump_at(new_layout@.align)
                    &&& copy.len == old_layout@.size
                }
                &&& final(self)@ == grown.bumped(new_layout@.size, new_layout@.align)
            },
            r matches Ok(copy) ==> {
                let header = vstd::layout::size_of::<BlockHeader>();
                &&& copy.src == ptr
                &&& copy.len == old_layout@.size
                &&& copy.dst as int % new_layout@.align == 0
                &&& mapped + header <= copy.dst < mapped + header + new_layout@.align
                &&& final(self).cursor == copy.dst + new_layout@.size
                &&& final(self).cursor <= final(self).end
                &&& final(self).current_block == mapped
            },
    {
        match self.try_allocate_slow(platform, new_layout.size(), new_layout.align(), mapped) {
            Ok(new_ptr) => Ok(ByteCopy { src: ptr, dst: new_ptr, len: old_layout.size() }),
            Err(err) => Err(err),
        }
    }

    /// Resizes an allocation to a smaller layout, and returns its address, which
    /// stays the same.
    ///
    /// If the allocation is the last one in the current block and its alignment
    /// is enough, the cursor moves backward and the released tail becomes
    /// available again. Otherwise the arena is left as it is.
    pub fn shrink(&mut self, ptr: usize, old_layout: Layout, new_layout: Layout) -> (r: usize)
        requires
            old(self).wf(),
            old(self)@.shrinks(ptr as int, old_layout@, new_layout@) ==> old(self)@.payload()
                <= ptr + new_layout@.size,
        ensures
            final(self).wf(),
            r == ptr,
            final(self)@ == old(self)@.shrunk(ptr as int, old_layout@, new_layout@),
            final(self).cursor == if ptr + old_layout@.size == old(self).cursor && new_layout@.size
                <= old_layout@.size && new_layout@.align <= old_layout@.align {
                ptr + new_layout@.size
            } else {
                old(self).cursor as int
            },
            final(self).current_block == old(self).current_block,
            final(self).end == old(self).end,
            final(self).double_allowed == old(self).double_allowed,
            final(self).chain == old(self).chain,
    {
        let is_valid_to_shrink: bool = new_layout.size() <= old_layout.size() && old_layout.align()
            >= new_layout.align();
        if is_valid_to_shrink && self.is_last_allocation(ptr, old_layout.size()) {
            let delta: usize = old_layout.size() - new_layout.size();
            self.cursor = self.cursor - delta;
        }
        ptr
    }

    /// Two blocks of the chain do not start at the same address.
    proof fn lemma_addresses_distinct(&self)
        requires
            self.wf(),
        ensures
            distinct(self.chain@),
    {
        reveal(distinct);
        assert forall|i: int, j: int|
            0 <= i < self.chain@.len() && 0 <= j < self.chain@.len() && (
            #[trigger] self.chain@[i]).mmap_ptr == (#[trigger] self.chain@[j]).mmap_ptr implies i
            == j by {
            let b = self@.blocks;
            assert(b[i].valid() && b[j].valid());
            if i < j {
                assert(b[i].apart(b[j]));
            } else if j < i {
                assert(b[j].apart(b[i]));
            }
        }
    }

    /// No block of the chain starts at the sentinel's address.
    proof fn lemma_addresses_off_sentinel(&self, i: int)
        requires
            self.wf(),
            0 <= i < self.chain@.len(),
        ensures
            self.chain@[i].mmap_ptr != crate::block::EMPTY_BLOCK_ADDR,
    {
        assert(self@.blocks[i].valid());
    }
}

impl Default for Arena {
    /// Creates an empty arena.
    fn default() -> (r: Arena)
        ensures
            r.wf(),
            r@ == ArenaState::empty(),
    {
        Arena::new()
    }
}

/// No two headers of a chain have the same address.
#[verifier::opaque]
spec fn distinct(chain: Seq<BlockHeader>) -> bool {
    forall|i: int, j: int|
        0 <= i < chain.len() && 0 <= j < chain.len() && (#[trigger] chain[i]).mmap_ptr == (
        #[trigger] chain[j]).mmap_ptr ==> i == j
}

/// A chain without the headers behind position `pos`, up to position `from`.
#[verifier::opaque]
spec fn without(chain: Seq<BlockHeader>, pos: int, from: int) -> Seq<BlockHeader> {
    chain.subrange(0, pos + 1) + chain.subrange(from + 1, chain.len() as int)
}

proof fn lemma_without_nothing(chain: Seq<BlockHeader>, from: int)
    requires
        -1 <= from < chain.len(),
    ensures
        without(chain, from, from) == chain,
{
    reveal(without);
    assert(without(chain, from, from) =~= chain);
}

/// What is left holds the header at `pos`, there and nowhere else, and removing
/// it leaves out one header more.
proof fn lemma_without_step(chain: Seq<BlockHeader>, pos: int, from: int)
    requires
        0 <= pos <= from < chain.len(),
        distinct(chain),
    ensures
        ({
            let rest = without(chain, pos, from);
            &&& pos < rest.len()
            &&& rest[pos] == chain[pos]
            &&& forall|i: int|
                0 <= i < rest.len() && (#[trigger] rest[i]).mmap_ptr == chain[pos].mmap_ptr ==> i
                    == pos
            &&& rest.remove(pos) == without(chain, pos - 1, from)
        }),
{
    reveal(without);
    reveal(distinct);
    let rest = without(chain, pos, from);
    assert forall|i: int|
        0 <= i < rest.len() && (#[trigger] rest[i]).mmap_ptr == chain[pos].mmap_ptr implies i
        == pos by {
        if i <= pos {
            assert(rest[i] == chain[i]);
        } else {
            assert(rest[i] == chain[i - pos + from]);
        }
    }
    assert(rest.remove(pos) =~= without(chain, pos - 1, from));
}

/// Clearing the low bits of `size + align - 1` rounds `size` up.
proof fn lemma_mask_is_round_up(size: int, sum: usize, align: usize)
    requires
        is_pow2(align as int),
        sum == size + align - 1,
    ensures
        sum & !((align - 1) as usize) == crate::rounding::round_up(size, align as int),
{
    crate::rounding::lemma_mask_rounds_down(sum, align);
    let a = align as int;
    vstd::arithmetic::div_mod::lemma_fundamental_div_mod(sum as int, a);
    assert(a * (sum as int / a) == (sum as int / a) * a) by (nonlinear_arith);
}

} // verus!
