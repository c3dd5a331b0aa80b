//! The ways in which a request can fail.
use vstd::prelude::*;

verus! {

#[derive(Debug, Clone, Copy, PartialEq, Eq, Structural)]
pub enum AllocatorError {
    OutOfMemory,
    ZeroSizedType,
    AllocationFailed,
    Overflow,
}

impl AllocatorError {
    /// The text that describes the error.
    pub open spec fn text(self) -> Seq<char> {
        match self {
            AllocatorError::OutOfMemory => "not enough memory available for allocation"@,
            AllocatorError::ZeroSizedType => "cannot allocate a zero-sized type"@,
            AllocatorError::AllocationFailed => "memory allocation failed"@,
            AllocatorError::Overflow => "arithmetic overflow while calculating allocation size"@,
        }
    }

    /// Describes the error in words.
    pub fn to_string(&self) -> (r: String)
        ensures
            r@ == self.text(),
            self is OutOfMemory ==> r@ == "not enough memory available for allocation"@,
            self is ZeroSizedType ==> r@ == "cannot allocate a zero-sized type"@,
            self is AllocationFailed ==> r@ == "memory allocation failed"@,
            self is Overflow ==> r@ == "arithmetic overflow while calculating allocation size"@,
    {
        let words: &str = match self {
            AllocatorError::OutOfMemory => "not enough memory available for allocation",
            AllocatorError::ZeroSizedType => "cannot allocate a zero-sized type",
            AllocatorError::AllocationFailed => "memory allocation failed",
            AllocatorError::Overflow => "arithmetic overflow while calculating allocation size",
        };
        words.to_owned()
    }
}

} // verus!
