//! What holds of an arena over many calls.
use crate::action::{ByteCopy, Grown};
use crate::arena::Arena;
use crate::block::{BlockHeader, EMPTY_BLOCK_ADDR};
use crate::layout::Shape;
use crate::model::{ArenaState, Block};
use vstd::arithmetic::power2::*;
use vstd::multiset::Multiset;
use vstd::prelude::*;

verus! {

/// The addresses of a live allocation, in the block at position `block`.
pub struct Region {
    pub block: int,
    pub start: int,
    pub size: int,
}

impl Region {
    /// One past the last address.
    pub open spec fn end(self) -> int {
        self.start + self.size
    }

    /// The two regions share no address.
    pub open spec fn apart(self, other: Region) -> bool {
        self.end() <= other.start || other.end() <= self.start
    }

    /// The region holds the address.
    pub open spec fn holds(self, addr: int) -> bool {
        self.start <= addr < self.end()
    }

    /// The region lies in its block behind the header and, in the current block,
    /// before the cursor.
    pub open spec fn inside(self, arena: ArenaState) -> bool {
        &&& 0 < self.size
        &&& 0 <= self.block < arena.blocks.len()
        &&& arena.blocks[self.block].payload() <= self.start
        &&& self.end() <= if self.block == arena.blocks.len() - 1 {
            arena.cursor
        } else {
            arena.blocks[self.block].end()
        }
    }
}

/// One thing that happens to an arena. Each of these is what the contract of one
/// operation says of it.
pub enum Event {
    /// A request is served from the current block. One for no bytes only rounds
    /// the cursor up.
    Bump { shape: Shape },
    /// A request is served from a new block, mapped at `start`.
    NewBlock { shape: Shape, page: int, start: int },
    /// The mapping of a new block fails.
    MappingFails,
    /// An allocation of no bytes at `ptr`, such as one that was shrunk to
    /// nothing, grows in place.
    Revive { ptr: int, old: Shape, new: Shape },
    /// Live allocation `k` grows by moving to `dst` in the current block; the old
    /// bytes stay live.
    Move { k: int, old: Shape, new: Shape, dst: int },
    /// Live allocation `k` grows in place.
    Extend { k: int, old: Shape, new: Shape },
    /// Live allocation `k` shrinks.
    Shrink { k: int, old: Shape, new: Shape },
    /// The arena is reset.
    Reset,
    /// The arena is cleared.
    Clear,
}

/// An arena with the allocations that are live in it, the blocks mapped for it
/// and the blocks it has given back.
#[verifier::ext_equal]
pub struct World {
    pub arena: ArenaState,
    pub live: Seq<Region>,
    pub mapped: Multiset<Block>,
    pub released: Multiset<Block>,
}

impl World {
    /// A new arena.
    pub open spec fn fresh() -> World {
        World {
            arena: ArenaState::empty(),
            live: Seq::empty(),
            mapped: Multiset::empty(),
            released: Multiset::empty(),
        }
    }

    /// Live allocation `k` is a region of the current block that has the given
    /// size and ends at the cursor.
    pub open spec fn last_is(self, k: int, size: int) -> bool {
        &&& 0 <= k < self.live.len()
        &&& self.live[k].block == self.arena.blocks.len() - 1
        &&& self.live[k].size == size
        &&& self.arena.is_last(self.live[k].start, size)
    }

    /// The live allocations with one more, unless it has no bytes.
    pub open spec fn live_with(self, region: Region) -> Seq<Region> {
        if region.size == 0 {
            self.live
        } else {
            self.live.push(region)
        }
    }

    /// The event can happen.
    pub open spec fn allows(self, event: Event) -> bool {
        match event {
            Event::Bump { shape } => {
                &&& 0 <= shape.size
                &&& is_pow2(shape.align)
                &&& self.arena.bump_fits(shape.size, shape.align)
            },
            Event::NewBlock { shape, page, start } => {
                &&& 0 <= shape.size
                &&& is_pow2(shape.align)
                &&& is_pow2(page)
                &&& self.arena.accepts(
                    start,
                    self.arena.growth_size(shape.size, shape.align, page),
                )
            },
            Event::MappingFails => true,
            Event::Revive { ptr, old, new } => {
                &&& old.size == 0
                &&& 0 <= new.size
                &&& self.arena.grows_in_place(ptr, old, new)
            },
            Event::Move { k, old, new, dst } => {
                &&& 0 <= k < self.live.len()
                &&& self.live[k].size == old.size
                &&& old.size <= new.size
                &&& is_pow2(new.align)
                &&& dst % new.align == 0
                &&& self.arena.cursor <= dst < self.arena.cursor + new.align
                &&& dst + new.size <= self.arena.blocks.last().start
                    + self.arena.blocks.last().size
                &&& {
                    ||| self.live[k].start + old.size != self.arena.cursor
                    ||| new.align > old.align
                    ||| self.live[k].start + new.size > self.arena.blocks.last().start
                        + self.arena.blocks.last().size
                }
            },
            Event::Extend { k, old, new } => {
                &&& old.size <= new.size
                &&& new.align <= old.align
                &&& self.last_is(k, old.size)
                &&& self.live[k].start + new.size <= self.arena.blocks.last().start
                    + self.arena.blocks.last().size
            },
            Event::Shrink { k, old, new } => {
                &&& 0 <= new.size <= old.size
                &&& new.align <= old.align
                &&& self.last_is(k, old.size)
            },
            Event::Reset => self.arena.blocks.len() > 0,
            Event::Clear => true,
        }
    }

    /// What the event leads to.
    pub open spec fn after(self, event: Event) -> World {
        match event {
            Event::Bump { shape } => World {
                arena: self.arena.bumped(shape.size, shape.align),
                live: self.live_with(
                    Region {
                        block: self.arena.blocks.len() - 1,
                        start: self.arena.bump_at(shape.align),
                        size: shape.size,
                    },
                ),
                ..self
            },
            Event::NewBlock { shape, page, start } => {
                let size = self.arena.growth_size(shape.size, shape.align, page);
                let grown = self.arena.grown(start, size);
                World {
                    arena: grown.bumped(shape.size, shape.align),
                    live: self.live_with(
                        Region {
                            block: self.arena.blocks.len() as int,
                            start: grown.bump_at(shape.align),
                            size: shape.size,
                        },
                    ),
                    mapped: self.mapped.insert(Block { start, size }),
                    ..self
                }
            },
            Event::MappingFails => World {
                arena: ArenaState { double_allowed: true, ..self.arena },
                ..self
            },
            Event::Revive { ptr, old, new } => World {
                arena: self.arena.grow_answered(ptr, old, new),
                live: self.live_with(
                    Region { block: self.arena.blocks.len() - 1, start: ptr, size: new.size },
                ),
                ..self
            },
            Event::Move { k, old, new, dst } => World {
                arena: self.arena.grow_answered(self.live[k].start, old, new),
                live: self.live_with(
                    Region { block: self.arena.blocks.len() - 1, start: dst, size: new.size },
                ),
                ..self
            },
            Event::Extend { k, old, new } => World {
                arena: self.arena.grow_answered(self.live[k].start, old, new),
                live: self.live.update(k, Region { size: new.size, ..self.live[k] }),
                ..self
            },
            Event::Shrink { k, old, new } => World {
                arena: self.arena.shrunk(self.live[k].start, old, new),
                live: if new.size == 0 {
                    self.live.remove(k)
                } else {
                    self.live.update(k, Region { size: new.size, ..self.live[k] })
                },
                ..self
            },
            Event::Reset => World {
                arena: self.arena.reset(),
                live: Seq::empty(),
                released: self.released.add(self.arena.reset_releases().to_multiset()),
                ..self
            },
            Event::Clear => World {
                arena: self.arena.cleared(),
                live: Seq::empty(),
                released: self.released.add(self.arena.clear_releases().to_multiset()),
                ..self
            },
        }
    }

    /// The arena is valid, every live allocation lies inside it, no two live
    /// allocations share an address, and the blocks mapped are those given back
    /// and those that the arena has.
    pub open spec fn sound(self) -> bool {
        &&& self.arena.valid()
        &&& forall|k: int| 0 <= k < self.live.len() ==> (#[trigger] self.live[k]).inside(self.arena)
        &&& forall|j: int, k: int|
            0 <= j < k < self.live.len() ==> (#[trigger] self.live[j]).apart(
                #[trigger] self.live[k],
            )
        &&& self.mapped == self.released.add(self.arena.blocks.to_multiset())
    }

    /// The events can happen one after the other.
    pub open spec fn allows_all(self, events: Seq<Event>) -> bool
        decreases events.len(),
    {
        events.len() > 0 ==> {
            &&& self.allows_all(events.drop_last())
            &&& self.after_all(events.drop_last()).allows(events.last())
        }
    }

    /// What the events lead to.
    pub open spec fn after_all(self, events: Seq<Event>) -> World
        decreases events.len(),
    {
        if events.len() == 0 {
            self
        } else {
            self.after_all(events.drop_last()).after(events.last())
        }
    }
}

/// Whatever is done with a new arena and the allocations that are live in it, live
/// allocations never overlap each other or a header, they lie inside mapped blocks that do not overlap, the cursor
/// stays within the current block, and no block is lost or given back twice.
pub proof fn law_live_allocations_never_overlap(events: Seq<Event>)
    requires
        World::fresh().allows_all(events),
    ensures
        World::fresh().after_all(events).sound(),
    decreases events.len(),
{
    if events.len() == 0 {
        assert(World::fresh().arena.blocks.to_multiset() =~= Multiset::empty()) by {
            broadcast use vstd::seq_lib::group_to_multiset_ensures;

        }
        assert(World::fresh().mapped =~= World::fresh().released.add(
            World::fresh().arena.blocks.to_multiset(),
        ));
    } else {
        law_live_allocations_never_overlap(events.drop_last());
        law_event_keeps_sound(World::fresh().after_all(events.drop_last()), events.last());
    }
}

/// Everything that can happen to a sound arena leaves it sound.
pub proof fn law_event_keeps_sound(world: World, event: Event)
    requires
        world.sound(),
        world.allows(event),
    ensures
        world.after(event).sound(),
{
    match event {
        Event::Bump { shape } => lemma_bump_keeps_sound(world, shape),
        Event::NewBlock { shape, page, start } => lemma_new_block_keeps_sound(
            world,
            shape,
            page,
            start,
        ),
        Event::MappingFails => lemma_failure_keeps_sound(world),
        Event::Revive { ptr, old, new } => lemma_revive_keeps_sound(world, ptr, old, new),
        Event::Move { k, old, new, dst } => lemma_move_keeps_sound(world, k, old, new, dst),
        Event::Extend { k, old, new } => lemma_extend_keeps_sound(world, k, old, new),
        Event::Shrink { k, old, new } => lemma_shrink_keeps_sound(world, k, old, new),
        Event::Reset => lemma_reset_keeps_sound(world),
        Event::Clear => lemma_clear_keeps_sound(world),
    }
}

/// A live region of a block that is not the current one is apart from a region
/// of the current block.
proof fn lemma_blocks_part_regions(arena: ArenaState, old: Region, start: int, size: int)
    requires
        arena.valid(),
        old.inside(arena),
        old.block < arena.blocks.len() - 1,
        arena.blocks.last().start <= start,
        start + size <= arena.blocks.last().end(),
        0 <= BlockHeader::span(),
    ensures
        old.end() <= start || start + size <= old.start,
{
    let last = arena.blocks.len() - 1;
    assert(arena.blocks[old.block].apart(arena.blocks[last]));
}

proof fn lemma_bump_keeps_sound(world: World, shape: Shape)
    requires
        world.sound(),
        world.allows(Event::Bump { shape }),
    ensures
        world.after(Event::Bump { shape }).sound(),
{
    reveal(is_pow2);
    crate::rounding::lemma_round_up_bounds(world.arena.cursor, shape.align);
    lemma_advance_keeps_sound(
        world,
        world.arena.bump_at(shape.align),
        shape.size,
        world.after(Event::Bump { shape }),
    );
}

proof fn lemma_revive_keeps_sound(world: World, ptr: int, old: Shape, new: Shape)
    requires
        world.sound(),
        world.allows(Event::Revive { ptr, old, new }),
    ensures
        world.after(Event::Revive { ptr, old, new }).sound(),
{
    lemma_advance_keeps_sound(
        world,
        ptr,
        new.size,
        world.after(Event::Revive { ptr, old, new }),
    );
}

proof fn lemma_move_keeps_sound(world: World, k: int, old: Shape, new: Shape, dst: int)
    requires
        world.sound(),
        world.allows(Event::Move { k, old, new, dst }),
    ensures
        world.after(Event::Move { k, old, new, dst }).sound(),
{
    assert(world.live[k].inside(world.arena));
    crate::meaning::law_bump(world.arena, new, dst, world.arena.end());
    lemma_advance_keeps_sound(
        world,
        dst,
        new.size,
        world.after(Event::Move { k, old, new, dst }),
    );
}

proof fn lemma_failure_keeps_sound(world: World)
    requires
        world.sound(),
    ensures
        world.after(Event::MappingFails).sound(),
{
    let next = world.after(Event::MappingFails);
    assert forall|k: int| 0 <= k < next.live.len() implies (#[trigger] next.live[k]).inside(
        next.arena,
    ) by {
        assert(world.live[k].inside(world.arena));
    }
}

/// Taking bytes at or behind the cursor of the current block, and moving the
/// cursor behind them, keeps the arena sound.
proof fn lemma_advance_keeps_sound(world: World, start: int, size: int, next: World)
    requires
        world.sound(),
        0 <= size,
        world.arena.cursor <= start,
        start + size <= world.arena.end(),
        next == (World {
            arena: ArenaState { cursor: start + size, ..world.arena },
            live: world.live_with(Region { block: world.arena.blocks.len() - 1, start, size }),
            ..world
        }),
    ensures
        next.sound(),
{
    let arena = world.arena;
    let count = world.live.len();
    let fresh = Region { block: arena.blocks.len() - 1, start, size };
    BlockHeader::lemma_span();
    if size > 0 {
        assert(arena.blocks.len() > 0);
        assert(fresh.inside(next.arena));
    }
    assert forall|k: int| 0 <= k < next.live.len() implies (#[trigger] next.live[k]).inside(
        next.arena,
    ) by {
        if k < count {
            assert(next.live[k] == world.live[k]);
            assert(world.live[k].inside(arena));
        }
    }
    assert forall|j: int, k: int| 0 <= j < k < next.live.len() implies (
    #[trigger] next.live[j]).apart(#[trigger] next.live[k]) by {
        assert(next.live[j] == world.live[j]);
        if k < count {
            assert(world.live[j].apart(world.live[k]));
        } else {
            assert(world.live[j].inside(arena));
            if world.live[j].block < arena.blocks.len() - 1 {
                lemma_blocks_part_regions(arena, world.live[j], start, size);
            }
        }
    }
}

proof fn lemma_new_block_keeps_sound(world: World, shape: Shape, page: int, start: int)
    requires
        world.sound(),
        world.allows(Event::NewBlock { shape, page, start }),
    ensures
        world.after(Event::NewBlock { shape, page, start }).sound(),
{
    let next = world.after(Event::NewBlock { shape, page, start });
    let arena = world.arena;
    let size = arena.growth_size(shape.size, shape.align, page);
    let block = Block { start, size };
    let grown = arena.grown(start, size);
    reveal(is_pow2);
    BlockHeader::lemma_span();
    law_growth_holds_request(arena, shape, page);
    crate::rounding::lemma_round_up_bounds(grown.cursor, shape.align);
    assert(grown.blocks.last() == block);
    assert(block.valid());
    assert forall|i: int| 0 <= i < next.arena.blocks.len() implies (
    #[trigger] next.arena.blocks[i]).valid() by {
        if i < arena.blocks.len() {
            assert(next.arena.blocks[i] == arena.blocks[i]);
        }
    }
    assert forall|i: int, j: int| 0 <= i < j < next.arena.blocks.len() implies (
    #[trigger] next.arena.blocks[i]).apart(#[trigger] next.arena.blocks[j]) by {
        assert(next.arena.blocks[i] == arena.blocks[i]);
        if j < arena.blocks.len() {
            assert(arena.blocks[i].apart(arena.blocks[j]));
        } else {
            assert(arena.blocks[i].apart(block));
        }
    }
    assert(next.arena.valid());
    let count = world.live.len();
    let fresh = Region {
        block: arena.blocks.len() as int,
        start: grown.bump_at(shape.align),
        size: shape.size,
    };
    assert forall|k: int| 0 <= k < next.live.len() implies (#[trigger] next.live[k]).inside(
        next.arena,
    ) by {
        if k < count {
            let old = world.live[k];
            assert(next.live[k] == old);
            assert(old.inside(arena));
            assert(next.arena.blocks[old.block] == arena.blocks[old.block]);
        }
    }
    assert forall|j: int, k: int| 0 <= j < k < next.live.len() implies (
    #[trigger] next.live[j]).apart(#[trigger] next.live[k]) by {
        assert(next.live[j] == world.live[j]);
        if k < count {
            assert(world.live[j].apart(world.live[k]));
        } else {
            assert(next.live[j].inside(next.arena));
            lemma_blocks_part_regions(next.arena, next.live[j], fresh.start, fresh.size);
        }
    }
    assert(next.mapped =~= next.released.add(next.arena.blocks.to_multiset())) by {
        broadcast use vstd::seq_lib::group_to_multiset_ensures;

        assert(next.arena.blocks.to_multiset() =~= arena.blocks.to_multiset().insert(block));
    }
}

proof fn lemma_extend_keeps_sound(world: World, k: int, old: Shape, new: Shape)
    requires
        world.sound(),
        world.allows(Event::Extend { k, old, new }),
    ensures
        world.after(Event::Extend { k, old, new }).sound(),
{
    let next = world.after(Event::Extend { k, old, new });
    let arena = world.arena;
    BlockHeader::lemma_span();
    let region = next.live[k];
    assert(world.live[k].inside(arena));
    assert forall|i: int| 0 <= i < next.live.len() implies (#[trigger] next.live[i]).inside(
        next.arena,
    ) by {
        assert(world.live[i].inside(arena));
    }
    assert forall|i: int, j: int| 0 <= i < j < next.live.len() implies (
    #[trigger] next.live[i]).apart(#[trigger] next.live[j]) by {
        assert(world.live[i].inside(arena));
        assert(world.live[j].inside(arena));
        assert(world.live[i].apart(world.live[j]));
        if i == k && next.live[j].block < arena.blocks.len() - 1 {
            lemma_blocks_part_regions(arena, next.live[j], region.start, region.size);
        }
        if j == k && next.live[i].block < arena.blocks.len() - 1 {
            lemma_blocks_part_regions(arena, next.live[i], region.start, region.size);
        }
    }
}

proof fn lemma_shrink_keeps_sound(world: World, k: int, old: Shape, new: Shape)
    requires
        world.sound(),
        world.allows(Event::Shrink { k, old, new }),
    ensures
        world.after(Event::Shrink { k, old, new }).sound(),
{
    let next = world.after(Event::Shrink { k, old, new });
    let arena = world.arena;
    assert(world.live[k].inside(arena));
    BlockHeader::lemma_span();
    assert forall|i: int| 0 <= i < next.live.len() implies (#[trigger] next.live[i]).inside(
        next.arena,
    ) by {
        let at = if new.size == 0 && i >= k {
            i + 1
        } else {
            i
        };
        assert(world.live[at].inside(arena));
        if at < k {
            assert(world.live[at].apart(world.live[k]));
        } else if k < at {
            assert(world.live[k].apart(world.live[at]));
        }
    }
    assert forall|i: int, j: int| 0 <= i < j < next.live.len() implies (
    #[trigger] next.live[i]).apart(#[trigger] next.live[j]) by {
        let from = if new.size == 0 && i >= k {
            i + 1
        } else {
            i
        };
        let to = if new.size == 0 && j >= k {
            j + 1
        } else {
            j
        };
        assert(world.live[from].apart(world.live[to]));
    }
}

proof fn lemma_reset_keeps_sound(world: World)
    requires
        world.sound(),
        world.allows(Event::Reset),
    ensures
        world.after(Event::Reset).sound(),
{
    let next = world.after(Event::Reset);
    let arena = world.arena;
    let last = arena.blocks.last();
    assert(arena.blocks[arena.blocks.len() - 1].valid());
    assert(next.arena.blocks.last() == last);
    law_reset_gives_back_all_but_one(arena);
    assert(next.mapped =~= next.released.add(next.arena.blocks.to_multiset()));
}

proof fn lemma_clear_keeps_sound(world: World)
    requires
        world.sound(),
    ensures
        world.after(Event::Clear).sound(),
{
    let next = world.after(Event::Clear);
    law_clear_gives_back_all(world.arena);
    assert(next.mapped =~= next.released.add(next.arena.blocks.to_multiset()));
}

/// `reset` gives back every block once, except the current one, which it keeps.
pub proof fn law_reset_gives_back_all_but_one(arena: ArenaState)
    requires
        arena.blocks.len() > 0,
    ensures
        arena.reset_releases().to_multiset().add(arena.reset().blocks.to_multiset())
            == arena.blocks.to_multiset(),
        arena.reset().blocks == seq![arena.blocks.last()],
{
    let older = arena.blocks.drop_last();
    let last = arena.blocks.last();
    lemma_reverse_multiset(older);
    assert(arena.blocks =~= older.push(last));
    assert(seq![last] =~= Seq::<Block>::empty().push(last));
    broadcast use vstd::seq_lib::group_to_multiset_ensures;

    assert(arena.blocks.to_multiset() =~= older.to_multiset().insert(last));
    assert(seq![last].to_multiset() =~= Multiset::empty().insert(last));
    assert(arena.reset_releases().to_multiset().add(arena.reset().blocks.to_multiset())
        =~= arena.blocks.to_multiset());
}

/// `clear` and `drop` give back every block once.
pub proof fn law_clear_gives_back_all(arena: ArenaState)
    ensures
        arena.clear_releases().to_multiset() == arena.blocks.to_multiset(),
        arena.cleared().blocks.to_multiset() == Multiset::<Block>::empty(),
{
    broadcast use vstd::seq_lib::group_to_multiset_ensures;

    lemma_reverse_multiset(arena.blocks);
    assert(arena.cleared().blocks.to_multiset() =~= Multiset::<Block>::empty());
}

/// Reversing a sequence keeps what is in it.
proof fn lemma_reverse_multiset(s: Seq<Block>)
    ensures
        s.reverse().to_multiset() == s.to_multiset(),
    decreases s.len(),
{
    broadcast use vstd::seq_lib::group_to_multiset_ensures;

    if s.len() == 0 {
        assert(s.reverse() =~= s);
    } else {
        let rest = s.drop_last();
        lemma_reverse_multiset(rest);
        assert(s =~= rest.push(s.last()));
        assert(s.reverse() =~= seq![s.last()] + rest.reverse());
        vstd::seq_lib::lemma_multiset_commutative(seq![s.last()], rest.reverse());
        assert(seq![s.last()] =~= Seq::<Block>::empty().push(s.last()));
        assert(s.reverse().to_multiset() =~= s.to_multiset());
    }
}

/// A new block has room for its header, for the request and for the padding that
/// its alignment may ask for, so that the request fits behind the header.
pub proof fn law_growth_holds_request(arena: ArenaState, shape: Shape, page: int)
    requires
        0 <= shape.size,
        is_pow2(shape.align),
        is_pow2(page),
    ensures
        arena.growth_size(shape.size, shape.align, page) >= shape.size + BlockHeader::bytes()
            + shape.align - 1,
        forall|start: int|
            (#[trigger] arena.grown(
                start,
                arena.growth_size(shape.size, shape.align, page),
            )).bump_fits(shape.size, shape.align),
{
    reveal(is_pow2);
    BlockHeader::lemma_span();
    crate::rounding::lemma_round_up_bounds(
        shape.size + BlockHeader::bytes() + shape.align - 1,
        page,
    );
    let size = arena.growth_size(shape.size, shape.align, page);
    assert forall|start: int| (#[trigger] arena.grown(start, size)).bump_fits(
        shape.size,
        shape.align,
    ) by {
        let grown = arena.grown(start, size);
        crate::rounding::lemma_round_up_bounds(grown.cursor, shape.align);
        assert(grown.blocks.last() == (Block { start, size }));
    }
}

/// The size of a new block is a whole number of pages if that of the current one
/// is, at least one for a request that asks for any byte; it is at least twice
/// the size of the current block where doubling is allowed and can be computed.
pub proof fn law_growth_size(arena: ArenaState, shape: Shape, page: int)
    requires
        0 <= shape.size,
        is_pow2(shape.align),
        is_pow2(page),
        arena.current_size() % page == 0,
    ensures
        arena.growth_size(shape.size, shape.align, page) % page == 0,
        0 < shape.size ==> arena.growth_size(shape.size, shape.align, page) >= page,
        arena.double_allowed && 2 * arena.current_size() <= usize::MAX ==> arena.growth_size(
            shape.size,
            shape.align,
            page,
        ) >= 2 * arena.current_size(),
{
    reveal(is_pow2);
    BlockHeader::lemma_span();
    let unrounded = shape.size + BlockHeader::bytes() + shape.align - 1;
    crate::rounding::lemma_round_up_bounds(unrounded, page);
    let requested = ArenaState::requested(shape.size, shape.align, page);
    if 0 < shape.size && requested < page {
        crate::rounding::lemma_multiples_apart(0, requested, page);
    }
    let current = arena.current_size();
    assert((2 * current) % page == 0) by {
        vstd::arithmetic::div_mod::lemma_mod_adds(current, current, page);
    }
    assert(page % page == 0) by {
        vstd::arithmetic::div_mod::lemma_mod_self_0(page);
    }
}

/// The first growth after `reset` does not double: the block has the pages that
/// the request asks for. After that growth, doubling is allowed again.
pub proof fn law_reset_holds_doubling_back_once(
    arena: ArenaState,
    shape: Shape,
    page: int,
    start: int,
)
    requires
        0 < shape.size,
        is_pow2(shape.align),
        is_pow2(page),
    ensures
        arena.reset().growth_size(shape.size, shape.align, page) == ArenaState::requested(
            shape.size,
            shape.align,
            page,
        ),
        arena.reset().grown(
            start,
            arena.reset().growth_size(shape.size, shape.align, page),
        ).double_allowed,
{
    reveal(is_pow2);
    BlockHeader::lemma_span();
    let requested = ArenaState::requested(shape.size, shape.align, page);
    crate::rounding::lemma_round_up_bounds(
        shape.size + BlockHeader::bytes() + shape.align - 1,
        page,
    );
    if requested < page {
        crate::rounding::lemma_multiples_apart(0, requested, page);
    }
}

/// Where every block of a new arena is mapped with the same page size, the size
/// of each is a whole number of pages.
pub proof fn law_blocks_are_whole_pages(events: Seq<Event>, page: int)
    requires
        is_pow2(page),
        World::fresh().allows_all(events),
        forall|i: int|
            0 <= i < events.len() ==> ((#[trigger] events[i]) matches Event::NewBlock { page: p, .. }
                ==> p == page),
    ensures
        forall|i: int|
            0 <= i < World::fresh().after_all(events).arena.blocks.len() ==> {
                let size = (#[trigger] World::fresh().after_all(events).arena.blocks[i]).size;
                size % page == 0 && size >= page
            },
    decreases events.len(),
{
    if events.len() > 0 {
        let older = events.drop_last();
        let before = World::fresh().after_all(older);
        let blocks = World::fresh().after_all(events).arena.blocks;
        assert forall|i: int| 0 <= i < older.len() implies ((#[trigger] older[i]) matches Event::NewBlock {
            page: p,
            ..
        } ==> p == page) by {
            assert(older[i] == events[i]);
        }
        law_blocks_are_whole_pages(older, page);
        assert(events[events.len() - 1] == events.last());
        reveal(is_pow2);
        if let Event::NewBlock { shape, page: p, start } = events.last() {
            assert(p == page);
            let count = before.arena.blocks.len();
            assert(before.arena.current_size() % page == 0) by {
                if count > 0 {
                    assert(before.arena.blocks[count - 1].size % page == 0);
                } else {
                    vstd::arithmetic::div_mod::lemma_small_mod(0, page as nat);
                }
            }
            law_growth_size(before.arena, shape, page);
            let size = before.arena.growth_size(shape.size, shape.align, page);
            if size < page {
                crate::rounding::lemma_multiples_apart(0, size, page);
            }
            assert forall|i: int| 0 <= i < blocks.len() implies {
                let size = (#[trigger] blocks[i]).size;
                size % page == 0 && size >= page
            } by {
                if i < count {
                    assert(blocks[i] == before.arena.blocks[i]);
                }
            }
        }
    }
}

/// Along the chain of blocks, each is at least twice as large as the one before
/// it, unless that much cannot be computed. Only the block mapped first after a
/// `reset`, which follows the kept one, may be smaller.
pub proof fn law_blocks_double_along_the_chain(events: Seq<Event>)
    requires
        World::fresh().allows_all(events),
    ensures
        ({
            let arena = World::fresh().after_all(events).arena;
            &&& arena.blocks.len() > 1 || !events.contains(Event::Reset) ==> arena.double_allowed
            &&& forall|i: int|
                0 <= i < arena.blocks.len() - 1 && (i > 0 || !events.contains(Event::Reset))
                    ==> doubles(#[trigger] arena.blocks[i], arena.blocks[i + 1])
        }),
    decreases events.len(),
{
    if events.len() > 0 {
        let older = events.drop_last();
        let event = events.last();
        let before = World::fresh().after_all(older).arena;
        let arena = World::fresh().after_all(events).arena;
        law_blocks_double_along_the_chain(older);
        assert(events[events.len() - 1] == event);
        assert(older.contains(Event::Reset) ==> events.contains(Event::Reset)) by {
            if older.contains(Event::Reset) {
                let i = older.index_of(Event::Reset);
                assert(events[i] == Event::Reset);
            }
        }
        if event is NewBlock {
            let count = before.blocks.len();
            assert forall|i: int|
                0 <= i < arena.blocks.len() - 1 && (i > 0 || !events.contains(
                    Event::Reset,
                )) implies doubles(#[trigger] arena.blocks[i], arena.blocks[i + 1]) by {
                assert(arena.blocks[i] == before.blocks[i]);
                if i < count - 1 {
                    assert(arena.blocks[i + 1] == before.blocks[i + 1]);
                    assert(doubles(before.blocks[i], before.blocks[i + 1]));
                }
            }
        }
    }
}

/// The second block is at least twice as large as the first, unless that much
/// cannot be computed.
pub open spec fn doubles(first: Block, second: Block) -> bool {
    2 * first.size <= usize::MAX ==> second.size >= 2 * first.size
}

/// After `reset`, allocations start where the first allocation of the kept block
/// started.
pub proof fn law_reset_rewinds(
    first: ArenaState,
    start: int,
    size: int,
    later: ArenaState,
    align: int,
)
    requires
        later.blocks.len() > 0,
        later.blocks.last() == (Block { start, size }),
    ensures
        later.reset().bump_at(align) == first.grown(start, size).bump_at(align),
{
}

/// After `reset`, a request that the kept block was large enough for fits in it
/// again, and needs no further block.
pub proof fn law_reset_makes_room(arena: ArenaState, shape: Shape)
    requires
        arena.blocks.len() > 0,
        0 <= shape.size,
        is_pow2(shape.align),
        shape.size + BlockHeader::bytes() + shape.align - 1 <= arena.blocks.last().size,
    ensures
        arena.reset().bump_fits(shape.size, shape.align),
        arena.reset().answered(shape).blocks == seq![arena.blocks.last()],
{
    reveal(is_pow2);
    BlockHeader::lemma_span();
    assert(arena.reset().blocks.last() == arena.blocks.last());
    crate::rounding::lemma_round_up_bounds(arena.reset().cursor, shape.align);
}

/// A second `reset` gives nothing back and changes nothing.
pub proof fn law_reset_twice(arena: ArenaState)
    requires
        arena.blocks.len() > 0,
    ensures
        arena.reset().reset() == arena.reset(),
        arena.reset().reset_releases() == Seq::<Block>::empty(),
{
    assert(arena.reset().blocks.last() == arena.blocks.last());
    assert(arena.reset().reset_releases() =~= Seq::<Block>::empty());
}

/// A cleared arena answers every request as a new one does.
pub proof fn law_clear_is_like_new(arena: ArenaState, shape: Shape, page: int)
    requires
        0 < shape.size,
        is_pow2(shape.align),
        is_pow2(page),
    ensures
        arena.cleared().request_error(shape, page) == ArenaState::empty().request_error(
            shape,
            page,
        ),
        arena.cleared().bump_fits(shape.size, shape.align) == ArenaState::empty().bump_fits(
            shape.size,
            shape.align,
        ),
        arena.cleared().growth_size(shape.size, shape.align, page)
            == ArenaState::empty().growth_size(shape.size, shape.align, page),
        forall|start: int|
            arena.cleared().grown(start, arena.cleared().growth_size(shape.size, shape.align, page))
                == #[trigger] ArenaState::empty().grown(
                start,
                arena.cleared().growth_size(shape.size, shape.align, page),
            ),
{
    reveal(is_pow2);
    BlockHeader::lemma_span();
    let requested = ArenaState::requested(shape.size, shape.align, page);
    crate::rounding::lemma_round_up_bounds(
        shape.size + BlockHeader::bytes() + shape.align - 1,
        page,
    );
    if requested < page {
        crate::rounding::lemma_multiples_apart(0, requested, page);
    }
}

/// A new arena has no room: its first request needs a block.
pub proof fn law_new_arena_needs_a_block(shape: Shape)
    requires
        0 < shape.size,
        is_pow2(shape.align),
    ensures
        !ArenaState::empty().bump_fits(shape.size, shape.align),
        ArenaState::empty().blocks.len() == 0,
{
    reveal(is_pow2);
    crate::rounding::lemma_round_up_bounds(0, shape.align);
}

/// Every allocation starts at a multiple of its alignment, at the cursor or as
/// little behind it as the alignment allows, and moves the cursor to its end.
pub proof fn law_allocations_are_aligned(arena: ArenaState, shape: Shape, at: int)
    requires
        is_pow2(shape.align),
        at == arena.bump_at(shape.align),
    ensures
        at % shape.align == 0,
        arena.cursor <= at < arena.cursor + shape.align,
        arena.bumped(shape.size, shape.align).cursor == at + shape.size,
        arena.bumped(shape.size, shape.align).is_last(at, shape.size),
{
    reveal(is_pow2);
    crate::rounding::lemma_round_up_bounds(arena.cursor, shape.align);
}

/// An allocation that grows in place keeps an address that suits its new
/// alignment.
pub proof fn law_grow_in_place_is_aligned(arena: ArenaState, ptr: int, old: Shape, new: Shape)
    requires
        is_pow2(old.align),
        is_pow2(new.align),
        ptr % old.align == 0,
        arena.grows_in_place(ptr, old, new),
    ensures
        ptr % new.align == 0,
{
    lemma_pow2_divides(new.align, old.align);
    let q = ptr / old.align;
    let r = old.align / new.align;
    reveal(is_pow2);
    vstd::arithmetic::div_mod::lemma_fundamental_div_mod(ptr, old.align);
    vstd::arithmetic::div_mod::lemma_fundamental_div_mod(old.align, new.align);
    assert(ptr == (q * r) * new.align) by (nonlinear_arith)
        requires
            ptr == old.align * q,
            old.align == new.align * r,
    ;
    vstd::arithmetic::div_mod::lemma_mod_multiples_basic(q * r, new.align);
}

/// The smaller of two powers of two divides the larger.
proof fn lemma_pow2_divides(a: int, b: int)
    requires
        is_pow2(a),
        is_pow2(b),
        a <= b,
    ensures
        b % a == 0,
    decreases b,
{
    reveal(is_pow2);
    if a > 1 {
        lemma_pow2_divides(a / 2, b / 2);
        let h = a / 2;
        let q = (b / 2) / h;
        vstd::arithmetic::div_mod::lemma_fundamental_div_mod(b / 2, h);
        assert(b == q * a) by (nonlinear_arith)
            requires
                b == 2 * (b / 2),
                b / 2 == h * q,
                a == 2 * h,
        ;
        vstd::arithmetic::div_mod::lemma_mod_multiples_basic(q, a);
    }
}

/// An allocation that grew in place is still the last one: it ends at the cursor.
pub proof fn law_grown_in_place_is_last(arena: ArenaState, ptr: int, old: Shape, new: Shape)
    requires
        arena.grows_in_place(ptr, old, new),
    ensures
        arena.grow_answered(ptr, old, new).is_last(ptr, new.size),
{
}

/// The last allocation lies behind the header of the current block, so it can be
/// shrunk to any smaller size.
pub proof fn law_last_allocation_can_shrink(world: World, k: int, size: int)
    requires
        world.sound(),
        world.last_is(k, size),
    ensures
        world.arena.payload() <= world.live[k].start,
{
    assert(world.live[k].inside(world.arena));
}

/// An allocation that shrank is still the last one: it ends at the cursor.
pub proof fn law_shrunk_is_last(arena: ArenaState, ptr: int, old: Shape, new: Shape)
    requires
        arena.shrinks(ptr, old, new),
    ensures
        arena.shrunk(ptr, old, new).is_last(ptr, new.size),
{
}

/// After an allocation shrank, the next one that its new end suits starts there,
/// in the space that was given up.
pub proof fn law_shrink_frees_the_tail(
    arena: ArenaState,
    ptr: int,
    old: Shape,
    new: Shape,
    next: Shape,
)
    requires
        arena.valid(),
        arena.shrinks(ptr, old, new),
        is_pow2(next.align),
        (ptr + new.size) % next.align == 0,
        next.size <= old.size - new.size,
    ensures
        arena.shrunk(ptr, old, new).bump_at(next.align) == ptr + new.size,
        arena.shrunk(ptr, old, new).bump_fits(next.size, next.align),
{
    reveal(is_pow2);
    crate::rounding::lemma_round_up_of_multiple(ptr + new.size, next.align);
}

/// Growing back an allocation that was shrunk restores the arena.
pub proof fn law_grow_undoes_shrink(arena: ArenaState, ptr: int, large: Shape, small: Shape)
    requires
        arena.valid(),
        arena.shrinks(ptr, large, small),
        small.align == large.align,
    ensures
        arena.shrunk(ptr, large, small).grows_in_place(ptr, small, large),
        arena.shrunk(ptr, large, small).grow_answered(ptr, small, large) == arena,
{
}

/// Memory after a copy.
pub open spec fn copied(memory: spec_fn(int) -> u8, copy: ByteCopy) -> spec_fn(int) -> u8 {
    |addr: int|
        if copy.dst <= addr < copy.dst + copy.len {
            memory(addr - copy.dst + copy.src)
        } else {
            memory(addr)
        }
}

/// Moving a live allocation to a larger one copies between places that do not
/// overlap, brings all its bytes along, and changes no byte of any allocation
/// that was live, the old one included.
pub proof fn law_moving_preserves_bytes(
    world: World,
    event: Event,
    k: int,
    copy: ByteCopy,
    memory: spec_fn(int) -> u8,
)
    requires
        world.sound(),
        world.allows(event),
        event is Bump || event is NewBlock || event is Move,
        world.after(event).live.len() == world.live.len() + 1,
        0 <= k < world.live.len(),
        copy.src == world.live[k].start,
        copy.len == world.live[k].size,
        copy.dst == world.after(event).live.last().start,
        copy.len <= world.after(event).live.last().size,
    ensures
        copy.src + copy.len <= copy.dst || copy.dst + copy.len <= copy.src,
        forall|i: int|
            0 <= i < copy.len ==> #[trigger] copied(memory, copy)(copy.dst + i) == memory(
                copy.src + i,
            ),
        forall|j: int, addr: int|
            0 <= j < world.live.len() && (#[trigger] world.live[j]).holds(addr)
                ==> #[trigger] copied(memory, copy)(addr) == memory(addr),
{
    law_event_keeps_sound(world, event);
    let next = world.after(event);
    let count = world.live.len() as int;
    assert(next.live[k] == world.live[k]);
    assert(next.live[k].apart(next.live[count]));
    assert forall|j: int, addr: int|
        0 <= j < world.live.len() && (#[trigger] world.live[j]).holds(
            addr,
        ) implies #[trigger] copied(memory, copy)(addr) == memory(addr) by {
        assert(next.live[j] == world.live[j]);
        assert(next.live[j].apart(next.live[count]));
    }
}

/// The answer of `grow` that moves an allocation names the copy that brings its
/// bytes to the new allocation, which has all its new bytes to itself: they lie
/// before the cursor and inside the block, and apart from every live allocation.
pub proof fn law_grow_moves_its_bytes(
    world: World,
    k: int,
    old: Shape,
    new: Shape,
    page: int,
    copy: ByteCopy,
    memory: spec_fn(int) -> u8,
)
    requires
        world.sound(),
        0 <= k < world.live.len(),
        world.live[k].size == old.size,
        old.size <= new.size,
        is_pow2(new.align),
        world.arena.grow_answers(world.live[k].start, old, new, page, Grown::Moved(copy)),
    ensures
        copy.src + copy.len <= copy.dst || copy.dst + copy.len <= copy.src,
        world.arena.grow_answered(world.live[k].start, old, new).cursor == copy.dst + new.size,
        copy.dst + new.size <= world.arena.blocks.last().start + world.arena.blocks.last().size,
        forall|j: int|
            0 <= j < world.live.len() ==> (#[trigger] world.live[j]).end() <= copy.dst || copy.dst
                + new.size <= world.live[j].start,
        forall|i: int|
            0 <= i < old.size ==> #[trigger] copied(memory, copy)(copy.dst + i) == memory(
                world.live[k].start + i,
            ),
        forall|j: int, addr: int|
            0 <= j < world.live.len() && (#[trigger] world.live[j]).holds(addr)
                ==> #[trigger] copied(memory, copy)(addr) == memory(addr),
{
    assert(world.live[k].inside(world.arena));
    reveal(is_pow2);
    crate::rounding::lemma_round_up_bounds(world.arena.cursor, new.align);
    let event = Event::Move { k, old, new, dst: copy.dst as int };
    law_event_keeps_sound(world, event);
    let next = world.after(event);
    let count = world.live.len() as int;
    assert forall|j: int| 0 <= j < count implies (#[trigger] world.live[j]).end() <= copy.dst
        || copy.dst + new.size <= world.live[j].start by {
        assert(next.live[j] == world.live[j]);
        assert(next.live[j].apart(next.live[count]));
    }
    law_moving_preserves_bytes(world, event, k, copy, memory);
}

/// Writing inside one live allocation leaves the bytes of every other as they
/// are.
pub proof fn law_writes_stay_inside(
    world: World,
    j: int,
    k: int,
    before: spec_fn(int) -> u8,
    after: spec_fn(int) -> u8,
)
    requires
        world.sound(),
        0 <= j < world.live.len(),
        0 <= k < world.live.len(),
        j != k,
        forall|addr: int|
            !world.live[k].holds(addr) ==> #[trigger] after(addr) == before(addr),
    ensures
        forall|addr: int| world.live[j].holds(addr) ==> #[trigger] after(addr) == before(addr),
{
    if j < k {
        assert(world.live[j].apart(world.live[k]));
    } else {
        assert(world.live[k].apart(world.live[j]));
    }
}

/// The address reached by following `prev` from the current block `steps` times.
pub open spec fn followed(arena: Arena, steps: nat) -> usize
    decreases steps,
{
    if steps == 0 {
        arena.current_block
    } else {
        let at = followed(arena, (steps - 1) as nat);
        let header = choose|h: BlockHeader| arena.chain@.contains(h) && h.mmap_ptr == at;
        header.prev
    }
}

/// Following `prev` from the current block visits every block once, from the
/// newest to the oldest, and then reaches the sentinel.
pub proof fn law_chain_ends_at_the_sentinel(arena: Arena, steps: nat)
    requires
        arena.wf(),
        steps <= arena.chain@.len(),
    ensures
        steps < arena.chain@.len() ==> followed(arena, steps) == arena.chain@[arena.chain@.len()
            - 1 - steps].mmap_ptr,
        followed(arena, steps) == EMPTY_BLOCK_ADDR <==> steps == arena.chain@.len(),
    decreases steps,
{
    let chain = arena.chain@;
    let count = chain.len();
    if steps < count {
        assert(arena@.blocks[count - 1 - steps].valid());
    }
    if steps > 0 {
        law_chain_ends_at_the_sentinel(arena, (steps - 1) as nat);
        let i = count - steps;
        let at = chain[i].mmap_ptr;
        assert(chain.contains(chain[i]));
        let header = choose|h: BlockHeader| chain.contains(h) && h.mmap_ptr == at;
        let j = chain.index_of(header);
        assert(chain[j] == header);
        assert(arena@.blocks[i].valid() && arena@.blocks[j].valid());
        if i < j {
            assert(arena@.blocks[i].apart(arena@.blocks[j]));
        } else if j < i {
            assert(arena@.blocks[j].apart(arena@.blocks[i]));
        }
    }
}

} // verus!
