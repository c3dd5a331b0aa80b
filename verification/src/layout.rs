//! The size and alignment of a request.
use vstd::arithmetic::power2::*;
use vstd::prelude::*;

verus! {

/// A size and an alignment, as mathematical integers.
pub struct Shape {
    pub size: int,
    pub align: int,
}

impl Shape {
    /// The alignment is a power of two, and the size rounded up to a multiple of
    /// it does not exceed `isize::MAX`.
    pub open spec fn valid(self) -> bool {
        &&& self.size >= 0
        &&& is_pow2(self.align)
        &&& crate::rounding::round_up(self.size, self.align) <= isize::MAX
    }

    /// The shape of a value of type `T`.
    pub open spec fn of<T>() -> Shape {
        Shape {
            size: vstd::layout::size_of::<T>() as int,
            align: vstd::layout::align_of::<T>() as int,
        }
    }
}

/// The size and alignment of a block of memory to allocate.
#[derive(Debug, Clone, Copy)]
pub struct Layout {
    size: usize,
    align: usize,
}

/// The size and alignment given do not make a layout.
#[derive(Debug, Clone, Copy, PartialEq, Eq, Structural)]
pub struct LayoutError;

impl View for Layout {
    type V = Shape;

    closed spec fn view(&self) -> Shape {
        Shape { size: self.size as int, align: self.align as int }
    }
}

/// For a power of two `align`, the sizes that round up to at most `isize::MAX`
/// are those up to `isize::MAX + 1 - align`.
pub proof fn lemma_size_limit(size: int, align: usize)
    requires
        size >= 0,
        is_pow2(align as int),
    ensures
        0 < align <= isize::MAX + 1,
        crate::rounding::round_up(size, align as int) <= isize::MAX
            <==> size <= isize::MAX + 1 - align,
{
    let top = isize::MAX + 1;
    let a = align as int;
    crate::rounding::lemma_pow2_divides_half_range(align);
    crate::rounding::lemma_round_up_bounds(size, a);
    let below = top - a;
    assert(below % a == 0) by {
        vstd::arithmetic::div_mod::lemma_mod_sub_multiples_vanish(top, a);
    }
    let r = crate::rounding::round_up(size, a);
    if size <= below {
        crate::rounding::lemma_round_up_is_least(size, a, below);
    } else if r < top {
        crate::rounding::lemma_multiples_apart(below, r, a);
    }
}

impl Layout {
    #[verifier::type_invariant]
    spec fn inv(self) -> bool {
        self@.valid()
    }

    /// Makes a layout of the given size and alignment.
    pub fn from_size_align(size: usize, align: usize) -> (r: Result<Layout, LayoutError>)
        ensures
            r is Ok <==> (Shape { size: size as int, align: align as int }).valid(),
            r matches Ok(layout) ==> layout@ == (Shape { size: size as int, align: align as int }),
    {
        if !crate::rounding::is_power_of_two(align) {
            return Err(LayoutError);
        }
        proof {
            lemma_size_limit(size as int, align);
        }
        if size > isize::MAX as usize + 1 - align {
            return Err(LayoutError);
        }
        Ok(Layout { size, align })
    }

    /// The layout of a value of type `T`.
    pub fn new<T>() -> (r: Layout)
        ensures
            r@ == Shape::of::<T>(),
            r@.size == vstd::layout::size_of::<T>(),
            r@.align == vstd::layout::align_of::<T>(),
    {
        vstd::layout::layout_for_type_is_valid::<T>();
        let size: usize = core::mem::size_of::<T>();
        let align: usize = core::mem::align_of::<T>();
        proof {
            let a = align as int;
            crate::rounding::lemma_pow2_divides_half_range(align);
            lemma_size_limit(size as int, align);
            crate::rounding::lemma_round_up_of_multiple(size as int, a);
        }
        Layout { size, align }
    }

    /// The number of bytes.
    pub fn size(&self) -> (r: usize)
        ensures
            r == self@.size,
            self@.valid(),
    {
        proof {
            use_type_invariant(self);
        }
        self.size
    }

    /// The alignment of the first byte, in bytes.
    pub fn align(&self) -> (r: usize)
        ensures
            r == self@.align,
            self@.valid(),
    {
        proof {
            use_type_invariant(self);
        }
        self.align
    }
}

} // verus!
