//! A bump-style arena over memory blocks that the operating system maps.
//!
//! The arena keeps a cursor inside its current block, rounds that cursor up to
//! the alignment of each request and moves it past the bytes it hands out. When
//! the current block cannot hold a request, the arena asks for one more block
//! and links it to the previous one. `reset` keeps the current block and gives
//! the older ones back; `clear` and `drop` give every block back.
//!
//! Addresses are plain `usize` values. The arena decides, and its caller does
//! the work that touches memory: mapping a block of the size it names, unmapping
//! the blocks it lists, copying the bytes it describes and storing the value
//! that it has placed.
pub mod action;
pub mod arena;
pub mod block;
pub mod error;
pub mod laws;
pub mod layout;
pub mod meaning;
pub mod model;
pub mod platform;
pub mod rounding;

pub use crate::action::{Allocation, ByteCopy, Grown, Placement, Unmap};
pub use crate::arena::Arena;
pub use crate::block::{empty_block, BlockHeader, EmptyBlockWrapper};
pub use crate::error::AllocatorError;
pub use crate::layout::{Layout, LayoutError};
pub use crate::platform::Platform;
