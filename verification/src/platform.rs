//! What the arena knows of the operating system.
use vstd::arithmetic::power2::*;
use vstd::prelude::*;

verus! {

/// The facts about the machine that the arena's decisions rest on.
#[derive(Debug, Clone, Copy)]
pub struct Platform {
    page_size: usize,
}

impl View for Platform {
    type V = int;

    /// The page size.
    closed spec fn view(&self) -> int {
        self.page_size as int
    }
}

/// `libc::MAP_FAILED`, the reply of `mmap` when it maps nothing, as an address.
/// The crate defines it as the pointer with every bit set.
#[verifier::external_body]
fn map_failed() -> (r: usize)
    ensures
        r == usize::MAX,
{
    libc::MAP_FAILED as usize
}

impl Platform {
    #[verifier::type_invariant]
    spec fn inv(self) -> bool {
        is_pow2(self@)
    }

    /// Takes note of the page size, which is a power of two.
    pub fn new(page_size: usize) -> (r: Option<Platform>)
        ensures
            r is Some <==> is_pow2(page_size as int),
            r matches Some(platform) ==> platform@ == page_size,
    {
        if crate::rounding::is_power_of_two(page_size) {
            Some(Platform { page_size })
        } else {
            None
        }
    }

    /// The size of a page in bytes.
    pub fn get_page_size(&self) -> (r: usize)
        ensures
            r == self@,
            is_pow2(self@),
    {
        proof {
            use_type_invariant(self);
        }
        self.page_size
    }

    /// Reads the reply of the mapping call: the address of the new mapping, or
    /// null when the call failed.
    pub fn mapped_address(reply: usize) -> (r: usize)
        ensures
            r == (if reply == usize::MAX { 0 } else { reply }),
    {
        if reply == map_failed() {
            0
        } else {
            reply
        }
    }
}

} // verus!
