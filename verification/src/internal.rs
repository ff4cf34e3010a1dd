//! Heap geometry shared by every allocation strategy.
use vstd::prelude::*;

verus! {

/// Size of one block in bytes.
pub const BLOCK_SIZE: usize = 16 * 1024;

/// Size of one line in bytes: the granularity at which liveness is marked.
pub const LINE_SIZE: usize = 128;

/// Number of lines in one block.
pub const NUM_LINES_PER_BLOCK: usize = BLOCK_SIZE / LINE_SIZE;

} // verus!
