//! The allocation cascade and the contract of an allocation strategy.
//!
//! A strategy supplies the hooks; the cascade (`allocate`, with `scan_for_hole`
//! and `allocate_from_block`) is written once, in terms of the hooks alone.
//! Every hook that hands out a cursor promises one that the strategy admits,
//! and that is all the cascade relies on.
use vstd::prelude::*;
use crate::cursor::{BlockCursor, BlockHandle, MemoryRange};
use crate::internal::{BLOCK_SIZE, LINE_SIZE, NUM_LINES_PER_BLOCK};
use crate::model::{
    first_line, lemma_first_fit_is, lemma_first_fit_none, lemma_first_fit_props, line_of,
    AllocatorView, HookCall,
};

verus! {

/// An allocation strategy: the hooks that the cascade is built from, and the
/// cascade itself.
///
/// Only `allocate` is meant to be called from outside.
pub trait Allocator: Sized {
    /// What the strategy's own state must satisfy between calls.
    ///
    /// The two ghost functions have bodies so that a strategy that is not
    /// verified can implement the hooks alone; a verified strategy overrides
    /// them with its own state.
    open spec fn inv(&self) -> bool {
        true
    }

    /// The line marks of the strategy's blocks and the history of the hook
    /// calls made on it.
    ///
    /// Allocation neither marks nor clears a line, so every hook leaves the
    /// marks as they are. Each state-changing hook adds itself to the history
    /// and nothing else: a strategy whose hooks build on one another does so
    /// through helpers of its own.
    open spec fn view(&self) -> AllocatorView {
        AllocatorView { marked: Set::empty(), history: Seq::empty() }
    }

    /// Find the next hole of `block` at or after byte `start`, or `None` if
    /// every line from there on is marked.
    fn scan_block(&self, block: BlockHandle, start: u16) -> (res: Option<(u16, u16)>)
        requires
            self.inv(),
            start <= BLOCK_SIZE,
        ensures
            match res {
                Some((low, high)) => self@.is_next_hole(
                    block,
                    start as int,
                    low as int,
                    high as int,
                ),
                None => self@.lines_marked(
                    block,
                    first_line(start as int),
                    NUM_LINES_PER_BLOCK as int,
                ),
            },
    ;

    /// Get the current block to allocate from.
    fn take_current_block(&mut self) -> (res: Option<BlockCursor>)
        requires
            old(self).inv(),
        ensures
            final(self).inv(),
            final(self)@.marked == old(self)@.marked,
            final(self)@.history == old(self)@.history.push(
                HookCall::TakeCurrentBlock { taken: res },
            ),
            res matches Some(cursor) ==> final(self)@.admits(cursor),
    ;

    /// Set the current block to allocate from.
    fn put_current_block(&mut self, cursor: BlockCursor)
        requires
            old(self).inv(),
            old(self)@.admits(cursor),
        ensures
            final(self).inv(),
            final(self)@.marked == old(self)@.marked,
            final(self)@.history == old(self)@.history.push(HookCall::PutCurrentBlock { cursor }),
    ;

    /// Get a new block from a block resource: a cursor over the whole of a
    /// block that nothing was reserved from, or `None` if the supply is
    /// exhausted.
    fn get_new_block(&mut self) -> (res: Option<BlockCursor>)
        requires
            old(self).inv(),
        ensures
            final(self).inv(),
            final(self)@.marked == old(self)@.marked,
            final(self)@.history == old(self)@.history.push(HookCall::NewBlock { offered: res }),
            res matches Some(cursor) ==> final(self)@.admits(cursor) && cursor.low == 0
                && cursor.high == BLOCK_SIZE,
    ;

    /// Callback if no hole of `size` bytes was found in the current block. It
    /// may produce a cursor by means of its own; one that it produces holds
    /// `size` bytes.
    fn handle_no_hole(&mut self, size: usize) -> (res: Option<BlockCursor>)
        requires
            old(self).inv(),
        ensures
            final(self).inv(),
            final(self)@.marked == old(self)@.marked,
            final(self)@.history == old(self)@.history.push(
                HookCall::NoHole { size, offered: res },
            ),
            res matches Some(cursor) ==> final(self)@.admits(cursor) && cursor.fits(size),
    ;

    /// Callback if the given `block` has no holes left.
    fn handle_full_block(&mut self, block: BlockHandle)
        requires
            old(self).inv(),
        ensures
            final(self).inv(),
            final(self)@.marked == old(self)@.marked,
            final(self)@.history == old(self)@.history.push(HookCall::FullBlock { block }),
    ;

    /// Allocate `size` bytes or return `None`.
    ///
    /// The memory is not initialized, just reserved. This will try to find a
    /// hole in the cursor of `take_current_block()`. If there is no hole
    /// `handle_no_hole()` will be called. If this function returns `None` a
    /// `get_new_block()` is requested. A request larger than a block is
    /// refused before any hook is called.
    fn allocate(&mut self, size: usize) -> (res: Option<MemoryRange>)
        requires
            old(self).inv(),
        ensures
            final(self).inv(),
            old(self)@.allocation(size, final(self)@, res),
            size > BLOCK_SIZE ==> *final(self) == *old(self),
    {
        if size > BLOCK_SIZE {
            assert(self@.history.is_prefix_of(self@.history));
            return None;
        }
        let ghost before = self@;
        let taken = self.take_current_block();
        let ghost after_take = self@;
        let scanned = match taken {
            Some(cursor) => {
                proof {
                    lemma_first_fit_props(after_take, cursor, size);
                    lemma_first_fit_same(before, after_take, cursor, size);
                }
                self.scan_for_hole(size, cursor)
            },
            None => None,
        };
        let offered = match scanned {
            Some(hole) => Some(hole),
            None => self.handle_no_hole(size),
        };
        let found = match offered {
            Some(cursor) => Some(cursor),
            None => self.get_new_block(),
        };
        let ghost before_put = self@;
        match found {
            Some(cursor) => {
                let (next, range) = self.allocate_from_block(size, cursor);
                proof {
                    lemma_bumped_admitted(before_put, cursor, size);
                }
                self.put_current_block(next);
                proof {
                    lemma_grants_earlier(before, before_put, cursor, size);
                    let from = before.history.len() as int;
                    assert(self@.history.skip(from) =~= before_put.history.skip(from).push(
                        HookCall::PutCurrentBlock { cursor: next },
                    ));
                }
                Some(range)
            },
            None => None,
        }
    }

    /// Scan a cursor for a hole of `size` bytes and return a matching hole.
    ///
    /// If no hole was found `handle_full_block()` is called and `None`
    /// returned.
    fn scan_for_hole(&mut self, size: usize, cursor: BlockCursor) -> (res: Option<BlockCursor>)
        requires
            old(self).inv(),
            cursor.wf(),
        ensures
            final(self).inv(),
            final(self)@.marked == old(self)@.marked,
            res == old(self)@.first_fit(cursor, size),
            res is Some ==> *final(self) == *old(self),
            res is None ==> final(self)@.history == old(self)@.history.push(
                HookCall::FullBlock { block: cursor.block },
            ),
            res is None ==> !cursor.fits(size) && old(self)@.exhausted(
                cursor.block,
                cursor.high as int,
                size,
            ),
            res matches Some(hole) ==> hole.wf() && hole.fits(size) && hole.block == cursor.block
                && (hole == cursor || hole.low >= cursor.high),
    {
        let mut hole = cursor;
        while ((hole.high - hole.low) as usize) < size
            invariant
                *self == *old(self),
                self.inv(),
                hole.wf(),
                cursor.wf(),
                hole.block == cursor.block,
                scanned_to(self@, cursor, size, hole),
            decreases NUM_LINES_PER_BLOCK - first_line(hole.high as int),
        {
            proof {
                lemma_short_runs(self@, cursor, size, hole);
            }
            match self.scan_block(hole.block, hole.high) {
                None => {
                    proof {
                        lemma_exhausted(self@, cursor, size, hole);
                        lemma_first_fit_none(self@, cursor, size);
                    }
                    self.handle_full_block(hole.block);
                    return None;
                },
                Some((low, high)) => {
                    proof {
                        lemma_next_hole_extends(self@, cursor, size, hole, low, high);
                    }
                    hole = BlockCursor { block: hole.block, low, high };
                },
            }
        }
        proof {
            lemma_first_fit_is(self@, cursor, size, hole);
        }
        Some(hole)
    }

    /// Allocate an uninitialized object of `size` bytes from the cursor.
    ///
    /// Returns the cursor with a modified low offset and the reserved range.
    /// This must only be called if there is a hole of `size` bytes starting
    /// at the low offset.
    fn allocate_from_block(&self, size: usize, cursor: BlockCursor) -> (res: (
        BlockCursor,
        MemoryRange,
    ))
        requires
            cursor.wf(),
            cursor.fits(size),
        ensures
            res.0 == cursor.bumped(size),
            res.1 == cursor.range(size),
            res.0.block == cursor.block && res.0.low == cursor.low + size && res.0.high
                == cursor.high,
            res.0.low <= res.0.high,
            res.1.block == cursor.block && res.1.low == cursor.low && res.1.high == cursor.low
                + size,
    {
        let next_low: u16 = cursor.low + size as u16;
        (
            BlockCursor { block: cursor.block, low: next_low, high: cursor.high },
            MemoryRange { block: cursor.block, low: cursor.low, high: next_low },
        )
    }
}

/// The first fit depends on the line marks alone.
proof fn lemma_first_fit_same(
    v: AllocatorView,
    w: AllocatorView,
    cursor: BlockCursor,
    size: usize,
)
    requires
        v.marked == w.marked,
    ensures
        v.first_fit(cursor, size) == w.first_fit(cursor, size),
{
    assert forall|hole: BlockCursor| v.is_first_fit(cursor, size, hole) == w.is_first_fit(
        cursor,
        size,
        hole,
    ) by {
        lemma_is_first_fit_same(v, w, cursor, size, hole);
    }
}

/// Whether a cursor is the first fit depends on the line marks alone.
proof fn lemma_is_first_fit_same(
    v: AllocatorView,
    w: AllocatorView,
    cursor: BlockCursor,
    size: usize,
    hole: BlockCursor,
)
    requires
        v.marked == w.marked,
    ensures
        v.is_first_fit(cursor, size, hole) == w.is_first_fit(cursor, size, hole),
{
    assert forall|block: BlockHandle, a: int, b: int|
        v.lines_clear(block, a, b) == w.lines_clear(block, a, b) by {
        assert forall|line: int| v.line_marked(block, line) == w.line_marked(block, line) by {}
    }
}

/// The cursor left after a reservation from an admitted cursor is admitted.
proof fn lemma_bumped_admitted(v: AllocatorView, cursor: BlockCursor, size: usize)
    requires
        v.admits(cursor),
        cursor.fits(size),
    ensures
        v.admits(cursor.bumped(size)),
{
    let next = cursor.bumped(size);
    assert forall|line: int| next.touches_line(line) implies !#[trigger] v.line_marked(
        next.block,
        line,
    ) by {
        assert(cursor.touches_line(line));
    }
}

/// What is reserved from a cursor that a later view admits is granted by an
/// earlier view with the same line marks.
proof fn lemma_grants_earlier(
    early: AllocatorView,
    late: AllocatorView,
    cursor: BlockCursor,
    size: usize,
)
    requires
        early.marked == late.marked,
        early.history.is_prefix_of(late.history),
        late.admits(cursor),
        cursor.fits(size),
    ensures
        early.grants(cursor.range(size), size),
{
    let range = cursor.range(size);
    assert forall|line: int| range.touches_line(line) implies !#[trigger] early.line_marked(
        range.block,
        line,
    ) by {
        assert(cursor.touches_line(line));
        assert(!late.line_marked(cursor.block, line));
    }
    assert forall|i: int| 0 <= i < early.history.len() implies (#[trigger] early.history[i]
        matches HookCall::PutCurrentBlock { cursor: stored } ==> stored.block == range.block
        ==> stored.low <= range.low) by {
        assert(early.history[i] == late.history[i]);
    }
}

/// What the scan knows when it has come from `cursor` to `hole`: either it
/// has not moved, or `hole` is a hole after the cursor and no run of unmarked
/// lines between the two holds `size` bytes.
spec fn scanned_to(
    v: AllocatorView,
    cursor: BlockCursor,
    size: usize,
    hole: BlockCursor,
) -> bool {
    hole == cursor || {
        &&& !cursor.fits(size)
        &&& hole.block == cursor.block
        &&& v.is_hole(cursor.block, hole.low as int, hole.high as int)
        &&& first_line(cursor.high as int) <= line_of(hole.low as int)
        &&& v.no_room(
            cursor.block,
            first_line(cursor.high as int),
            line_of(hole.low as int),
            size,
        )
    }
}

/// While the scan has found no fit up to `hole`, no run of unmarked lines
/// that begins before the end of `hole` holds `size` bytes.
proof fn lemma_short_runs(v: AllocatorView, cursor: BlockCursor, size: usize, hole: BlockCursor)
    requires
        cursor.wf(),
        hole.wf(),
        !hole.fits(size),
        scanned_to(v, cursor, size, hole),
    ensures
        !cursor.fits(size),
        first_line(cursor.high as int) <= first_line(hole.high as int) <= NUM_LINES_PER_BLOCK,
        v.no_room(
            cursor.block,
            first_line(cursor.high as int),
            first_line(hole.high as int),
            size,
        ),
{
    let from = first_line(cursor.high as int);
    if hole != cursor {
        let l = line_of(hole.low as int);
        let h = line_of(hole.high as int);
        assert(first_line(hole.high as int) == h);
        assert forall|a: int, b: int|
            from <= a < h && a < b <= NUM_LINES_PER_BLOCK && #[trigger] v.lines_clear(
                cursor.block,
                a,
                b,
            ) implies (b - a) * LINE_SIZE < size by {
            if a >= l {
                if b > h {
                    assert(!v.line_marked(cursor.block, h));
                }
                assert((b - a) * LINE_SIZE <= hole.high - hole.low);
            }
        }
    }
}

/// Where the block has no hole after `hole`, the block is exhausted after the
/// cursor.
proof fn lemma_exhausted(v: AllocatorView, cursor: BlockCursor, size: usize, hole: BlockCursor)
    requires
        first_line(cursor.high as int) <= first_line(hole.high as int),
        v.no_room(
            cursor.block,
            first_line(cursor.high as int),
            first_line(hole.high as int),
            size,
        ),
        v.lines_marked(cursor.block, first_line(hole.high as int), NUM_LINES_PER_BLOCK as int),
    ensures
        v.exhausted(cursor.block, cursor.high as int, size),
{
    let from = first_line(cursor.high as int);
    let before = first_line(hole.high as int);
    assert forall|a: int, b: int|
        from <= a < NUM_LINES_PER_BLOCK && a < b <= NUM_LINES_PER_BLOCK && #[trigger] v.lines_clear(
            cursor.block,
            a,
            b,
        ) implies (b - a) * LINE_SIZE < size by {
        if a >= before {
            assert(v.line_marked(cursor.block, a));
        }
    }
}

/// The hole that the block scan finds after `hole` carries the scan on: it
/// lies after the cursor, and no run of unmarked lines before it holds `size`
/// bytes.
proof fn lemma_next_hole_extends(
    v: AllocatorView,
    cursor: BlockCursor,
    size: usize,
    hole: BlockCursor,
    low: u16,
    high: u16,
)
    requires
        cursor.wf(),
        hole.wf(),
        hole.block == cursor.block,
        !cursor.fits(size),
        first_line(cursor.high as int) <= first_line(hole.high as int),
        v.no_room(
            cursor.block,
            first_line(cursor.high as int),
            first_line(hole.high as int),
            size,
        ),
        v.is_next_hole(cursor.block, hole.high as int, low as int, high as int),
    ensures
        ({
            let next = BlockCursor { block: cursor.block, low, high };
            &&& next.wf()
            &&& scanned_to(v, cursor, size, next)
            &&& first_line(high as int) > first_line(hole.high as int)
        }),
{
    let from = first_line(cursor.high as int);
    let before = first_line(hole.high as int);
    let l = line_of(low as int);
    let h = line_of(high as int);
    assert(first_line(high as int) == h);
    assert forall|a: int, b: int|
        from <= a < l && a < b <= NUM_LINES_PER_BLOCK && #[trigger] v.lines_clear(
            cursor.block,
            a,
            b,
        ) implies (b - a) * LINE_SIZE < size by {
        if a >= before {
            assert(v.line_marked(cursor.block, a));
        }
    }
}

} // verus!
