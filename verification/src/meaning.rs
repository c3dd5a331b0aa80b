//! What every operation does, written out over addresses, sizes and counts.
//!
//! The padded start of an allocation is described by what it is: the multiple of
//! the alignment that lies at the cursor or less than one alignment behind it.
//! A rounded size is described in the same way.
use crate::action::{Allocation, Grown, Unmap};
use crate::arena::Arena;
use crate::block::{BlockHeader, EMPTY_BLOCK_ADDR};
use crate::error::AllocatorError;
use crate::layout::Shape;
use crate::model::{ArenaState, Block};
use vstd::arithmetic::power2::*;
use vstd::prelude::*;

verus! {

/// The multiple of `align` in the `align` numbers from `n` on is what `n` rounds
/// up to, and there is one.
pub proof fn law_round_up_is_the_next_multiple(n: int, align: int, m: int)
    requires
        align > 0,
    ensures
        m % align == 0 && n <= m < n + align <==> m == crate::rounding::round_up(n, align),
{
    crate::rounding::lemma_round_up_bounds(n, align);
    let r = crate::rounding::round_up(n, align);
    if m % align == 0 && n <= m < n + align {
        if m <= r {
            crate::rounding::lemma_multiples_apart(m, r, align);
        } else {
            crate::rounding::lemma_multiples_apart(r, m, align);
        }
    }
}

/// A layout is valid exactly if its alignment is a power of two and its size does
/// not exceed `isize::MAX + 1 - align`.
pub proof fn law_layout_limit(size: int, align: usize)
    requires
        size >= 0,
    ensures
        (Shape { size, align: align as int }).valid() <==> is_pow2(align as int) && size
            <= isize::MAX + 1 - align,
{
    if is_pow2(align as int) {
        crate::layout::lemma_size_limit(size, align);
    }
}

/// A header takes `size_of::<BlockHeader>()` bytes at the start of its block, and
/// is aligned as the type is.
pub proof fn law_header_room(start: int, size: int)
    ensures
        BlockHeader::bytes() == vstd::layout::size_of::<BlockHeader>(),
        BlockHeader::alignment() == vstd::layout::align_of::<BlockHeader>(),
        BlockHeader::span() == vstd::layout::size_of::<BlockHeader>(),
        (Block { start, size }).payload() == start + vstd::layout::size_of::<BlockHeader>(),
        (Block { start, size }).end() == start + size,
{
    BlockHeader::lemma_span();
}

/// The state of an arena holds the addresses and sizes in its headers, in their
/// order, its cursor and its flag.
pub proof fn law_state_of_arena(arena: Arena)
    ensures
        arena@.blocks.len() == arena.chain@.len(),
        forall|i: int|
            0 <= i < arena.chain@.len() ==> (#[trigger] arena@.blocks[i]).start
                == arena.chain@[i].mmap_ptr && arena@.blocks[i].size == arena.chain@[i].mmap_size,
        arena@.cursor == arena.cursor,
        arena@.double_allowed == arena.double_allowed,
{
}

/// A list of mappings to give back names their addresses and sizes.
pub proof fn law_unmapped_blocks(list: Seq<Unmap>)
    ensures
        crate::action::unmapped(list).len() == list.len(),
        forall|i: int|
            0 <= i < list.len() ==> (#[trigger] crate::action::unmapped(list)[i]).start
                == list[i].addr && crate::action::unmapped(list)[i].size == list[i].size,
{
}

/// An arena is well formed exactly if its headers describe mappings off null that
/// are aligned for a header, can hold one and do not wrap around, no two of them
/// overlap, each links to the one before it and the first to the sentinel, and
/// its addresses are those of the newest block, with the cursor behind the header
/// and not past the end; without a block they are those of the sentinel.
pub proof fn law_well_formed(arena: Arena)
    ensures
        arena.wf() <==> {
            let chain = arena.chain@;
            let count = chain.len();
            &&& forall|i: int|
                0 <= i < chain.len() ==> {
                    &&& 0 < (#[trigger] chain[i]).mmap_ptr
                    &&& 0 < chain[i].mmap_size
                    &&& vstd::layout::size_of::<BlockHeader>() <= chain[i].mmap_size
                    &&& chain[i].mmap_ptr + chain[i].mmap_size <= usize::MAX
                    &&& chain[i].mmap_ptr as int % vstd::layout::align_of::<BlockHeader>() as int
                        == 0
                    &&& chain[i].prev == if i == 0 {
                        EMPTY_BLOCK_ADDR
                    } else {
                        chain[i - 1].mmap_ptr
                    }
                }
            &&& forall|i: int, j: int|
                0 <= i < j < chain.len() ==> (#[trigger] chain[i]).mmap_ptr + chain[i].mmap_size
                    <= (#[trigger] chain[j]).mmap_ptr || chain[j].mmap_ptr + chain[j].mmap_size
                    <= chain[i].mmap_ptr
            &&& count == 0 ==> {
                &&& arena.current_block == EMPTY_BLOCK_ADDR
                &&& arena.cursor == 0
                &&& arena.end == 0
            }
            &&& count > 0 ==> {
                &&& arena.current_block == chain[count - 1].mmap_ptr
                &&& arena.end == chain[count - 1].mmap_ptr + chain[count - 1].mmap_size
                &&& chain[count - 1].mmap_ptr + vstd::layout::size_of::<BlockHeader>()
                    <= arena.cursor <= arena.end
            }
        },
{
    BlockHeader::lemma_span();
    let chain = arena.chain@;
    let blocks = arena@.blocks;
    assert(forall|i: int| 0 <= i < chain.len() ==> #[trigger] blocks[i] == chain[i]@);
    if arena.wf() {
        assert forall|i: int| 0 <= i < chain.len() implies (#[trigger] chain[i])@.valid() by {
            assert(blocks[i].valid());
        }
        assert forall|i: int, j: int| 0 <= i < j < chain.len() implies (
        #[trigger] chain[i]).mmap_ptr + chain[i].mmap_size <= (#[trigger] chain[j]).mmap_ptr
            || chain[j].mmap_ptr + chain[j].mmap_size <= chain[i].mmap_ptr by {
            assert(blocks[i].apart(blocks[j]));
        }
    } else {
        if forall|i: int| 0 <= i < chain.len() ==> (#[trigger] chain[i])@.valid() {
            assert(forall|i: int| 0 <= i < blocks.len() ==> (#[trigger] blocks[i]).valid()) by {
                assert(forall|i: int| 0 <= i < chain.len() ==> chain[i]@.valid());
            }
        }
        if forall|i: int, j: int|
            0 <= i < j < chain.len() ==> (#[trigger] chain[i]).mmap_ptr + chain[i].mmap_size <= (
            #[trigger] chain[j]).mmap_ptr || chain[j].mmap_ptr + chain[j].mmap_size
                <= chain[i].mmap_ptr {
            assert forall|i: int, j: int| 0 <= i < j < blocks.len() implies (
            #[trigger] blocks[i]).apart(#[trigger] blocks[j]) by {
                assert(chain[i].mmap_ptr + chain[i].mmap_size <= chain[j].mmap_ptr
                    || chain[j].mmap_ptr + chain[j].mmap_size <= chain[i].mmap_ptr);
            }
        }
    }
}

/// The room of an arena ends with its newest block and starts behind the header
/// of that block; without a block both are null.
pub proof fn law_room(arena: ArenaState)
    ensures
        arena.blocks.len() == 0 ==> arena.end() == 0 && arena.payload() == 0
            && arena.current_size() == 0,
        arena.blocks.len() > 0 ==> {
            let last = arena.blocks[arena.blocks.len() - 1];
            &&& arena.end() == last.start + last.size
            &&& arena.payload() == last.start + vstd::layout::size_of::<BlockHeader>()
            &&& arena.current_size() == last.size
        },
{
    BlockHeader::lemma_span();
}

/// An allocation in the current block goes to the first aligned address from the
/// cursor on, fits exactly if it ends no later than the block, moves the cursor
/// to its end and changes nothing else.
pub proof fn law_bump(arena: ArenaState, shape: Shape, at: int, end: int)
    requires
        is_pow2(shape.align),
        at % shape.align == 0,
        arena.cursor <= at < arena.cursor + shape.align,
        arena.blocks.len() == 0 ==> end == 0,
        arena.blocks.len() > 0 ==> end == arena.blocks[arena.blocks.len() - 1].start
            + arena.blocks[arena.blocks.len() - 1].size,
    ensures
        arena.bump_at(shape.align) == at,
        arena.bump_fits(shape.size, shape.align) <==> at + shape.size <= end,
        arena.bump_in_range(shape.size, shape.align) <==> arena.cursor + shape.align - 1
            <= usize::MAX && at + shape.size <= usize::MAX,
        arena.bumped(shape.size, shape.align).cursor == at + shape.size,
        arena.bumped(shape.size, shape.align).blocks == arena.blocks,
        arena.bumped(shape.size, shape.align).double_allowed == arena.double_allowed,
{
    reveal(is_pow2);
    law_round_up_is_the_next_multiple(arena.cursor, shape.align, at);
}

/// If any aligned place from the cursor on has room for a request, the request is
/// served from the current block, at that place or before it.
pub proof fn law_room_is_used(arena: ArenaState, shape: Shape, place: int)
    requires
        arena.blocks.len() > 0,
        is_pow2(shape.align),
        place % shape.align == 0,
        arena.cursor <= place,
        place + shape.size <= arena.blocks[arena.blocks.len() - 1].start
            + arena.blocks[arena.blocks.len() - 1].size,
    ensures
        arena.bump_fits(shape.size, shape.align),
        arena.bump_at(shape.align) <= place,
{
    reveal(is_pow2);
    crate::rounding::lemma_round_up_is_least(arena.cursor, shape.align, place);
}

/// A new block can be computed exactly if the size, the header, the padding and
/// the rounding to pages add up to at most `usize::MAX`. With `requested` the
/// least whole number of pages that holds size, header and padding, the block is
/// the larger of `requested` and twice the current block where doubling is
/// allowed, and the larger of `requested` and one page where it is not. A double
/// that overflows does not count.
pub proof fn law_new_block_size(arena: ArenaState, shape: Shape, page: int, requested: int)
    requires
        is_pow2(page),
        requested % page == 0,
        shape.size + vstd::layout::size_of::<BlockHeader>() + shape.align - 1 <= requested,
        requested < shape.size + vstd::layout::size_of::<BlockHeader>() + shape.align - 1 + page,
    ensures
        ArenaState::growth_in_range(shape.size, shape.align, page) <==> shape.size
            + vstd::layout::size_of::<BlockHeader>() + (shape.align - 1) + (page - 1)
            <= usize::MAX,
        ({
            let size = arena.growth_size(shape.size, shape.align, page);
            let current = if arena.blocks.len() == 0 {
                0
            } else {
                arena.blocks[arena.blocks.len() - 1].size
            };
            &&& arena.double_allowed && 2 * current <= usize::MAX ==> {
                &&& size >= 2 * current
                &&& size >= requested
                &&& size == 2 * current || size == requested
            }
            &&& arena.double_allowed && 2 * current > usize::MAX ==> size == requested
            &&& !arena.double_allowed ==> {
                &&& size >= page
                &&& size >= requested
                &&& size == page || size == requested
            }
        }),
{
    reveal(is_pow2);
    law_round_up_is_the_next_multiple(
        shape.size + vstd::layout::size_of::<BlockHeader>() + shape.align - 1,
        page,
        requested,
    );
}

/// A mapping is accepted exactly if it is off null, aligned for a header, does
/// not wrap around and overlaps no block.
pub proof fn law_accepted_mappings(arena: ArenaState, start: int, size: int)
    ensures
        arena.accepts(start, size) <==> {
            &&& 0 < start
            &&& 0 < size
            &&& start + size <= usize::MAX
            &&& start % vstd::layout::align_of::<BlockHeader>() as int == 0
            &&& forall|i: int|
                0 <= i < arena.blocks.len() ==> (#[trigger] arena.blocks[i]).start
                    + arena.blocks[i].size <= start || start + size <= arena.blocks[i].start
        },
{
    if arena.accepts(start, size) {
        assert forall|i: int| 0 <= i < arena.blocks.len() implies (
        #[trigger] arena.blocks[i]).start + arena.blocks[i].size <= start || start + size
            <= arena.blocks[i].start by {
            assert(arena.blocks[i].apart(Block { start, size }));
        }
    }
}

/// A new block is appended to the others, the cursor goes behind its header, and
/// doubling is allowed.
pub proof fn law_block_added(arena: ArenaState, start: int, size: int)
    ensures
        arena.grown(start, size).blocks.len() == arena.blocks.len() + 1,
        forall|i: int|
            0 <= i < arena.blocks.len() ==> #[trigger] arena.grown(start, size).blocks[i]
                == arena.blocks[i],
        arena.grown(start, size).blocks[arena.blocks.len() as int].start == start,
        arena.grown(start, size).blocks[arena.blocks.len() as int].size == size,
        arena.grown(start, size).cursor == start + vstd::layout::size_of::<BlockHeader>(),
        arena.grown(start, size).double_allowed,
{
    BlockHeader::lemma_span();
}

/// A request meets no error unless it asks for no bytes or its sums overflow.
pub proof fn law_requests_in_range_succeed(arena: ArenaState, shape: Shape, page: int)
    requires
        0 < shape.size,
        is_pow2(shape.align),
        arena.cursor + (shape.align - 1) + shape.size <= usize::MAX,
        shape.size + vstd::layout::size_of::<BlockHeader>() + (shape.align - 1) + (page - 1)
            <= usize::MAX,
    ensures
        arena.request_error(shape, page) is None,
{
    reveal(is_pow2);
    crate::rounding::lemma_round_up_bounds(arena.cursor, shape.align);
}

/// Which error a request meets, with `at` the aligned address that it would get:
/// no bytes are an error of their own; it is an overflow if the address or the
/// end of the allocation cannot be computed, or if it does not fit and the size of
/// its block cannot be computed.
pub proof fn law_request_errors(arena: ArenaState, shape: Shape, page: int, at: int, end: int)
    requires
        is_pow2(shape.align),
        at % shape.align == 0,
        arena.cursor <= at < arena.cursor + shape.align,
        arena.blocks.len() == 0 ==> end == 0,
        arena.blocks.len() > 0 ==> end == arena.blocks[arena.blocks.len() - 1].start
            + arena.blocks[arena.blocks.len() - 1].size,
    ensures
        arena.request_error(shape, page) == Some(AllocatorError::ZeroSizedType) <==> shape.size
            == 0,
        arena.request_error(shape, page) == Some(AllocatorError::Overflow) <==> shape.size != 0 && {
            ||| arena.cursor + shape.align - 1 > usize::MAX
            ||| at + shape.size > usize::MAX
            ||| at + shape.size > end && shape.size + vstd::layout::size_of::<BlockHeader>() + (
            shape.align - 1) + (page - 1) > usize::MAX
        },
        arena.request_error(shape, page) matches Some(err) ==> err == AllocatorError::ZeroSizedType
            || err == AllocatorError::Overflow,
{
    law_bump(arena, shape, at, end);
}

/// A request is served at an aligned address from the cursor on that leaves no
/// aligned one out, inside the current block, and takes all its bytes; or it needs
/// a block, and then it does not fit and the arena stays as it is.
pub proof fn law_requests_are_answered(
    arena: ArenaState,
    shape: Shape,
    page: int,
    answer: Allocation,
    end: int,
)
    requires
        is_pow2(shape.align),
        arena.answers(shape, page, answer),
        arena.blocks.len() == 0 ==> end == 0,
        arena.blocks.len() > 0 ==> end == arena.blocks[arena.blocks.len() - 1].start
            + arena.blocks[arena.blocks.len() - 1].size,
    ensures
        arena.answered(shape).blocks == arena.blocks,
        arena.answered(shape).double_allowed == arena.double_allowed,
        match answer {
            Allocation::Served(p) => {
                &&& p as int % shape.align == 0
                &&& arena.cursor <= p < arena.cursor + shape.align
                &&& p + shape.size <= end
                &&& arena.answered(shape).cursor == p + shape.size
            },
            Allocation::NeedsBlock(n) => {
                &&& n == arena.growth_size(shape.size, shape.align, page)
                &&& arena.answered(shape).cursor == arena.cursor
                &&& forall|place: int|
                    arena.cursor <= place && #[trigger] (place % shape.align) == 0 ==> place
                        + shape.size > end
            },
        },
{
    reveal(is_pow2);
    crate::rounding::lemma_round_up_bounds(arena.cursor, shape.align);
    law_bump(arena, shape, arena.bump_at(shape.align), end);
    if answer is NeedsBlock {
        assert forall|place: int|
            arena.cursor <= place && #[trigger] (place % shape.align) == 0 implies place
            + shape.size > end by {
            crate::rounding::lemma_round_up_is_least(arena.cursor, shape.align, place);
        }
    }
}

/// With `at` the aligned address from the cursor on: a request that fits there is
/// served there and takes its bytes; any other names its block and takes none.
pub proof fn law_requests_that_fit_are_served(
    arena: ArenaState,
    shape: Shape,
    page: int,
    answer: Allocation,
    at: int,
    end: int,
)
    requires
        is_pow2(shape.align),
        at % shape.align == 0,
        arena.cursor <= at < arena.cursor + shape.align,
        arena.blocks.len() == 0 ==> end == 0,
        arena.blocks.len() > 0 ==> end == arena.blocks[arena.blocks.len() - 1].start
            + arena.blocks[arena.blocks.len() - 1].size,
    ensures
        at + shape.size <= end ==> {
            &&& arena.answers(shape, page, answer) <==> (answer matches Allocation::Served(p) && p
                == at)
            &&& arena.answered(shape).cursor == at + shape.size
        },
        at + shape.size > end ==> {
            &&& arena.answers(shape, page, answer) <==> (answer matches Allocation::NeedsBlock(n)
                && n == arena.growth_size(shape.size, shape.align, page))
            &&& arena.answered(shape).cursor == arena.cursor
        },
        arena.answered(shape).blocks == arena.blocks,
        arena.answered(shape).double_allowed == arena.double_allowed,
{
    law_bump(arena, shape, at, end);
}

/// An allocation that ends at the cursor, in a state of any number of blocks,
/// grows in place if the new layout asks for no more alignment and its new end
/// lies within the block. It meets no error, keeps its address, the cursor goes to
/// its new end, and nothing else changes.
pub proof fn law_grow_in_place(
    arena: ArenaState,
    ptr: int,
    old: Shape,
    new: Shape,
    page: int,
    answer: Grown,
    end: int,
)
    requires
        ptr + old.size == arena.cursor,
        new.align <= old.align,
        ptr + new.size <= end,
        arena.blocks.len() == 0 ==> end == 0,
        arena.blocks.len() > 0 ==> end == arena.blocks[arena.blocks.len() - 1].start
            + arena.blocks[arena.blocks.len() - 1].size,
    ensures
        arena.grow_error(ptr, old, new, page) is None,
        arena.grow_answers(ptr, old, new, page, answer) <==> (answer matches Grown::InPlace(p) && p
            == ptr),
        arena.grow_answered(ptr, old, new).cursor == ptr + new.size,
        arena.grow_answered(ptr, old, new).blocks == arena.blocks,
        arena.grow_answered(ptr, old, new).double_allowed == arena.double_allowed,
{
}

/// Any other allocation moves. It meets the error that a request for the new
/// layout meets. If the new layout fits at `at`, the aligned address from the
/// cursor on, all the old bytes are copied there, and the cursor goes past all the
/// new ones; otherwise a block is needed and nothing changes.
pub proof fn law_grow_by_moving(
    arena: ArenaState,
    ptr: int,
    old: Shape,
    new: Shape,
    page: int,
    answer: Grown,
    at: int,
    end: int,
)
    requires
        is_pow2(new.align),
        at % new.align == 0,
        arena.cursor <= at < arena.cursor + new.align,
        arena.blocks.len() == 0 ==> end == 0,
        arena.blocks.len() > 0 ==> end == arena.blocks[arena.blocks.len() - 1].start
            + arena.blocks[arena.blocks.len() - 1].size,
        ptr + old.size != arena.cursor || new.align > old.align || ptr + new.size > end,
    ensures
        arena.grow_error(ptr, old, new, page) == arena.request_error(new, page),
        at + new.size <= end ==> {
            &&& arena.grow_answers(ptr, old, new, page, answer) <==> (answer matches Grown::Moved(
                copy,
            ) && copy.src == ptr && copy.dst == at && copy.len == old.size)
            &&& arena.grow_answered(ptr, old, new).cursor == at + new.size
        },
        at + new.size > end ==> {
            &&& arena.grow_answers(ptr, old, new, page, answer) <==> (
            answer matches Grown::NeedsBlock(n) && n == arena.growth_size(
                new.size,
                new.align,
                page,
            ))
            &&& arena.grow_answered(ptr, old, new).cursor == arena.cursor
        },
        arena.grow_answered(ptr, old, new).blocks == arena.blocks,
        arena.grow_answered(ptr, old, new).double_allowed == arena.double_allowed,
{
    law_bump(arena, new, at, end);
}

/// An allocation that ends at the cursor, in a state of any number of blocks,
/// shrinks exactly if the new layout asks for no more bytes and no more alignment:
/// then the cursor goes back to its new end. Nothing else ever changes.
pub proof fn law_shrink(arena: ArenaState, ptr: int, old: Shape, new: Shape)
    ensures
        ptr + old.size == arena.cursor && new.size <= old.size && new.align <= old.align ==> {
            &&& arena.shrinks(ptr, old, new)
            &&& arena.shrunk(ptr, old, new).cursor == ptr + new.size
        },
        ptr + old.size != arena.cursor || new.size > old.size || new.align > old.align ==> {
            &&& !arena.shrinks(ptr, old, new)
            &&& arena.shrunk(ptr, old, new).cursor == arena.cursor
        },
        arena.shrunk(ptr, old, new).blocks == arena.blocks,
        arena.shrunk(ptr, old, new).double_allowed == arena.double_allowed,
{
}

/// Resetting leaves the newest block, with the cursor behind its header and
/// doubling held back, and gives the others back from the newest to the oldest.
pub proof fn law_reset(arena: ArenaState)
    requires
        arena.blocks.len() > 0,
    ensures
        ({
            let count = arena.blocks.len();
            let newest = arena.blocks[count - 1];
            &&& arena.reset().blocks.len() == 1
            &&& arena.reset().blocks[0] == newest
            &&& arena.reset().cursor == newest.start + vstd::layout::size_of::<BlockHeader>()
            &&& !arena.reset().double_allowed
            &&& arena.reset_releases().len() == count - 1
            &&& forall|k: int|
                0 <= k < count - 1 ==> #[trigger] arena.reset_releases()[k] == arena.blocks[count - 2
                    - k]
        }),
{
    BlockHeader::lemma_span();
}

/// Clearing leaves no block, a null cursor and the flag as it was, and gives all
/// blocks back from the newest to the oldest.
pub proof fn law_clear(arena: ArenaState)
    ensures
        arena.cleared().blocks.len() == 0,
        arena.cleared().cursor == 0,
        arena.cleared().double_allowed == arena.double_allowed,
        arena.clear_releases().len() == arena.blocks.len(),
        forall|k: int|
            0 <= k < arena.blocks.len() ==> #[trigger] arena.clear_releases()[k]
                == arena.blocks[arena.blocks.len() - 1 - k],
{
}

} // verus!
