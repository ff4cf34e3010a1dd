//! The block cursor and the memory range reserved from it.
use vstd::prelude::*;
use crate::internal::{BLOCK_SIZE, LINE_SIZE};

verus! {

/// Opaque handle of one block: an index into whatever table of blocks the
/// strategy owns. The allocator never dereferences it.
#[derive(Clone, Copy, Debug, PartialEq, Eq, Hash, Structural)]
pub struct BlockHandle {
    pub index: usize,
}

/// The currently known free range `[low, high)` inside one block, in bytes
/// from the start of the block.
#[derive(Clone, Copy, Debug, PartialEq, Eq, Structural)]
pub struct BlockCursor {
    pub block: BlockHandle,
    pub low: u16,
    pub high: u16,
}

/// A reserved byte span `[low, high)` of one block, handed to the caller
/// uninitialized.
#[derive(Clone, Copy, Debug, PartialEq, Eq, Structural)]
pub struct MemoryRange {
    pub block: BlockHandle,
    pub low: u16,
    pub high: u16,
}

impl BlockCursor {
    /// The offsets are ordered and lie inside the block.
    pub open spec fn wf(self) -> bool {
        self.low <= self.high <= BLOCK_SIZE
    }

    /// Number of free bytes the cursor describes.
    pub open spec fn room(self) -> int {
        self.high - self.low
    }

    /// Whether `size` bytes can be reserved without looking further.
    pub open spec fn fits(self, size: usize) -> bool {
        self.room() >= size
    }

    /// The cursor left after `size` bytes are reserved at its low end.
    pub open spec fn bumped(self, size: usize) -> BlockCursor {
        BlockCursor { block: self.block, low: (self.low + size) as u16, high: self.high }
    }

    /// The `size` bytes at the low end of the cursor.
    pub open spec fn range(self, size: usize) -> MemoryRange {
        MemoryRange { block: self.block, low: self.low, high: (self.low + size) as u16 }
    }

    /// Whether line `line` of the block shares a byte with `[low, high)`.
    pub open spec fn touches_line(self, line: int) -> bool {
        self.low < self.high && line * LINE_SIZE < self.high && self.low < (line + 1) * LINE_SIZE
    }
}

impl MemoryRange {
    /// The offsets are ordered and lie inside the block.
    pub open spec fn wf(self) -> bool {
        self.low <= self.high <= BLOCK_SIZE
    }

    /// Number of bytes in the range.
    pub open spec fn len(self) -> int {
        self.high - self.low
    }

    /// Whether byte `offset` of `block` belongs to the range.
    pub open spec fn contains(self, block: BlockHandle, offset: int) -> bool {
        block == self.block && self.low <= offset < self.high
    }

    /// Whether the two ranges share no byte.
    pub open spec fn disjoint(self, other: MemoryRange) -> bool {
        forall|block: BlockHandle, offset: int|
            !(self.contains(block, offset) && other.contains(block, offset))
    }

    /// Whether line `line` of the block shares a byte with `[low, high)`.
    pub open spec fn touches_line(self, line: int) -> bool {
        self.low < self.high && line * LINE_SIZE < self.high && self.low < (line + 1) * LINE_SIZE
    }
}

} // verus!
