//! A chaos allocator: every request is answered with a pseudo-random,
//! suitably aligned address in or near one fixed region of 2^SIZE bytes.
//! Nothing is ever freed, and blocks may overlap or run past the region.
pub mod arith;
pub mod heap;
pub mod offset;

pub use heap::BogoAlloc;
