//! The ghost view of an allocation strategy, and what holes are in it.
//!
//! The contracts of the hooks and of the cascade speak of two things that a
//! strategy exposes as its view: the line marks of its blocks, and the history
//! of the state-changing hook calls made on it.
use vstd::prelude::*;
use crate::cursor::{BlockCursor, BlockHandle, MemoryRange};
use crate::internal::{BLOCK_SIZE, LINE_SIZE, NUM_LINES_PER_BLOCK};

verus! {

/// One call of a state-changing hook, with what it was given and what it
/// answered.
#[derive(Clone, Copy, Debug, PartialEq, Eq, Structural)]
pub enum HookCall {
    /// `take_current_block` answered `taken`.
    TakeCurrentBlock { taken: Option<BlockCursor> },
    /// `handle_full_block` was told that `block` has no hole left.
    FullBlock { block: BlockHandle },
    /// `handle_no_hole` was asked for `size` bytes and answered `offered`.
    NoHole { size: usize, offered: Option<BlockCursor> },
    /// `get_new_block` answered `offered`.
    NewBlock { offered: Option<BlockCursor> },
    /// `put_current_block` was given `cursor` to store.
    PutCurrentBlock { cursor: BlockCursor },
}

/// What the contracts see of a strategy.
pub struct AllocatorView {
    /// The marked lines, each as its block and its index in the block.
    pub marked: Set<(BlockHandle, int)>,
    /// Every call of a state-changing hook made so far, oldest first.
    pub history: Seq<HookCall>,
}

/// Index of the line that holds byte `offset`.
pub open spec fn line_of(offset: int) -> int {
    offset / (LINE_SIZE as int)
}

/// Index of the first line that starts at or after byte `offset`.
pub open spec fn first_line(offset: int) -> int {
    (offset + LINE_SIZE - 1) / (LINE_SIZE as int)
}

/// `low` is at or after the low offset of every cursor of `block` that the
/// history shows as stored.
pub open spec fn above_stored(history: Seq<HookCall>, block: BlockHandle, low: int) -> bool {
    forall|i: int|
        0 <= i < history.len() ==> (#[trigger] history[i] matches HookCall::PutCurrentBlock {
            cursor,
        } ==> cursor.block == block ==> cursor.low <= low)
}

/// The calls end at index `at`: `cursor` holds `size` bytes, the cursor that
/// is left after they are reserved from it is stored, and the caller gets
/// those bytes.
pub open spec fn settles(
    calls: Seq<HookCall>,
    at: int,
    cursor: BlockCursor,
    size: usize,
    res: Option<MemoryRange>,
) -> bool {
    &&& cursor.wf()
    &&& cursor.fits(size)
    &&& calls.len() == at + 1
    &&& calls[at] == HookCall::PutCurrentBlock { cursor: cursor.bumped(size) }
    &&& res == Some(cursor.range(size))
}

/// From index `at` on, the calls are the fallback for `size` bytes: the
/// strategy is asked what to do without a hole; only if it offers nothing is
/// it asked for a new block; the first cursor offered is reserved from, and
/// if none is offered nothing more is called and the caller gets nothing.
pub open spec fn falls_back(
    calls: Seq<HookCall>,
    at: int,
    size: usize,
    res: Option<MemoryRange>,
) -> bool {
    &&& calls.len() > at
    &&& calls[at] matches HookCall::NoHole { size: asked, offered: no_hole }
    &&& asked == size
    &&& match no_hole {
        Some(cursor) => settles(calls, at + 1, cursor, size, res),
        None => {
            &&& calls.len() > at + 1
            &&& calls[at + 1] matches HookCall::NewBlock { offered: new_block }
            &&& match new_block {
                Some(cursor) => settles(calls, at + 2, cursor, size, res),
                None => calls.len() == at + 2 && res is None,
            }
        },
    }
}

impl AllocatorView {
    /// Whether line `line` of `block` holds live data.
    pub open spec fn line_marked(self, block: BlockHandle, line: int) -> bool {
        self.marked.contains((block, line))
    }

    /// Every line of `block` with index in `[from, to)` is unmarked.
    pub open spec fn lines_clear(self, block: BlockHandle, from: int, to: int) -> bool {
        forall|line: int| from <= line < to ==> !#[trigger] self.line_marked(block, line)
    }

    /// Every line of `block` with index in `[from, to)` is marked.
    pub open spec fn lines_marked(self, block: BlockHandle, from: int, to: int) -> bool {
        forall|line: int| from <= line < to ==> #[trigger] self.line_marked(block, line)
    }

    /// `[low, high)` is a run of whole unmarked lines of `block` that ends at a
    /// marked line or at the end of the block.
    pub open spec fn is_hole(self, block: BlockHandle, low: int, high: int) -> bool {
        let l = line_of(low);
        let h = line_of(high);
        &&& low == l * LINE_SIZE
        &&& high == h * LINE_SIZE
        &&& 0 <= l < h <= NUM_LINES_PER_BLOCK
        &&& self.lines_clear(block, l, h)
        &&& h < NUM_LINES_PER_BLOCK ==> self.line_marked(block, h)
    }

    /// `[low, high)` is the next hole of `block` at or after byte `start`:
    /// the first run of unmarked lines among the lines that start at or after
    /// `start`, as far as it goes.
    pub open spec fn is_next_hole(
        self,
        block: BlockHandle,
        start: int,
        low: int,
        high: int,
    ) -> bool {
        &&& self.is_hole(block, low, high)
        &&& first_line(start) <= line_of(low)
        &&& self.lines_marked(block, first_line(start), line_of(low))
    }

    /// No run of unmarked lines of `block` that begins at a line in
    /// `[from, before)` holds `size` bytes.
    pub open spec fn no_room(
        self,
        block: BlockHandle,
        from: int,
        before: int,
        size: usize,
    ) -> bool {
        forall|a: int, b: int|
            from <= a < before && a < b <= NUM_LINES_PER_BLOCK && #[trigger] self.lines_clear(
                block,
                a,
                b,
            ) ==> (b - a) * LINE_SIZE < size
    }

    /// No run of unmarked lines of `block` that begins at or after byte
    /// `start` holds `size` bytes.
    pub open spec fn exhausted(self, block: BlockHandle, start: int, size: usize) -> bool {
        self.no_room(block, first_line(start), NUM_LINES_PER_BLOCK as int, size)
    }

    /// The strategy admits `cursor`: it is well formed, touches no marked
    /// line, and reaches back over nothing that a stored cursor of its block
    /// has left behind.
    pub open spec fn admits(self, cursor: BlockCursor) -> bool {
        &&& cursor.wf()
        &&& forall|line: int|
            cursor.touches_line(line) ==> !#[trigger] self.line_marked(cursor.block, line)
        &&& above_stored(self.history, cursor.block, cursor.low as int)
    }

    /// `hole` is what the scan from `cursor` settles on for `size` bytes: the
    /// cursor itself if it fits, else the first hole after it that fits, every
    /// run of unmarked lines between the two being too short.
    pub open spec fn is_first_fit(
        self,
        cursor: BlockCursor,
        size: usize,
        hole: BlockCursor,
    ) -> bool {
        if cursor.fits(size) {
            hole == cursor
        } else {
            &&& hole.block == cursor.block
            &&& self.is_hole(cursor.block, hole.low as int, hole.high as int)
            &&& first_line(cursor.high as int) <= line_of(hole.low as int)
            &&& hole.fits(size)
            &&& self.no_room(
                cursor.block,
                first_line(cursor.high as int),
                line_of(hole.low as int),
                size,
            )
        }
    }

    /// The hole that the scan from `cursor` settles on for `size` bytes, or
    /// `None` when the cursor is too small and no run of unmarked lines after
    /// it holds `size` bytes.
    pub open spec fn first_fit(self, cursor: BlockCursor, size: usize) -> Option<BlockCursor> {
        if exists|hole: BlockCursor| self.is_first_fit(cursor, size, hole) {
            Some(choose|hole: BlockCursor| self.is_first_fit(cursor, size, hole))
        } else {
            None
        }
    }

    /// `calls` and `res` are what one allocation of `size` bytes, no larger
    /// than a block, calls and returns on a strategy with this view: the
    /// current cursor, well formed if there is one, is taken; if the scan
    /// from it settles on a hole, that hole is reserved from and nothing else
    /// is called; if there is a cursor but no hole, the block is reported
    /// full, once, before the fallback; if there is no cursor, the fallback
    /// follows at once.
    pub open spec fn cascade(
        self,
        size: usize,
        calls: Seq<HookCall>,
        res: Option<MemoryRange>,
    ) -> bool {
        &&& calls.len() > 0
        &&& calls[0] matches HookCall::TakeCurrentBlock { taken }
        &&& match taken {
            Some(cursor) => match self.first_fit(cursor, size) {
                Some(hole) => cursor.wf() && settles(calls, 1, hole, size, res),
                None => {
                    &&& cursor.wf()
                    &&& calls.len() > 1
                    &&& calls[1] == HookCall::FullBlock { block: cursor.block }
                    &&& falls_back(calls, 2, size, res)
                },
            },
            None => falls_back(calls, 1, size, res),
        }
    }

    /// `range` is `size` bytes that a strategy with this view may give away:
    /// it lies in its block, touches no marked line, and begins at or after
    /// every cursor stored so far for its block.
    pub open spec fn grants(self, range: MemoryRange, size: usize) -> bool {
        &&& range.wf()
        &&& range.len() == size
        &&& forall|line: int|
            range.touches_line(line) ==> !#[trigger] self.line_marked(range.block, line)
        &&& above_stored(self.history, range.block, range.low as int)
    }

    /// One allocation of `size` bytes takes a strategy from this view to
    /// `post` and returns `res`: the line marks stay; a request larger than a
    /// block is refused with no hook called; any other request adds to the
    /// history exactly the calls of the cascade; and a range that is returned
    /// is one that this view grants.
    pub open spec fn allocation(
        self,
        size: usize,
        post: AllocatorView,
        res: Option<MemoryRange>,
    ) -> bool {
        &&& post.marked == self.marked
        &&& self.history.is_prefix_of(post.history)
        &&& if size > BLOCK_SIZE {
            res is None && post.history == self.history
        } else {
            self.cascade(size, post.history.skip(self.history.len() as int), res)
        }
        &&& res matches Some(range) ==> self.grants(range, size)
    }
}

/// At most one cursor is the first fit.
pub proof fn lemma_first_fit_unique(
    v: AllocatorView,
    cursor: BlockCursor,
    size: usize,
    x: BlockCursor,
    y: BlockCursor,
)
    requires
        v.is_first_fit(cursor, size, x),
        v.is_first_fit(cursor, size, y),
    ensures
        x == y,
{
    if !cursor.fits(size) {
        let lx = line_of(x.low as int);
        let hx = line_of(x.high as int);
        let ly = line_of(y.low as int);
        let hy = line_of(y.high as int);
        if lx < ly {
            assert(v.lines_clear(cursor.block, lx, hx));
        }
        if ly < lx {
            assert(v.lines_clear(cursor.block, ly, hy));
        }
        assert(lx == ly);
        if hx < hy {
            assert(v.line_marked(cursor.block, hx));
        }
        if hy < hx {
            assert(v.line_marked(cursor.block, hy));
        }
    }
}

/// A cursor that is shown to be the first fit is the value of `first_fit`.
pub proof fn lemma_first_fit_is(
    v: AllocatorView,
    cursor: BlockCursor,
    size: usize,
    hole: BlockCursor,
)
    requires
        v.is_first_fit(cursor, size, hole),
    ensures
        v.first_fit(cursor, size) == Some(hole),
{
    let chosen = choose|h: BlockCursor| v.is_first_fit(cursor, size, h);
    lemma_first_fit_unique(v, cursor, size, chosen, hole);
}

/// Where the cursor is too small and the block is exhausted after it, there
/// is no first fit.
pub proof fn lemma_first_fit_none(v: AllocatorView, cursor: BlockCursor, size: usize)
    requires
        !cursor.fits(size),
        v.exhausted(cursor.block, cursor.high as int, size),
    ensures
        v.first_fit(cursor, size) is None,
{
    if exists|hole: BlockCursor| v.is_first_fit(cursor, size, hole) {
        let hole = choose|hole: BlockCursor| v.is_first_fit(cursor, size, hole);
        let l = line_of(hole.low as int);
        let h = line_of(hole.high as int);
        assert(v.lines_clear(cursor.block, l, h));
        assert(false);
    }
}

/// What the first fit is: the cursor itself where it fits; else a hole of the
/// same block that fits, lies wholly after the cursor, and is admitted where
/// the cursor was.
pub proof fn lemma_first_fit_props(v: AllocatorView, cursor: BlockCursor, size: usize)
    requires
        cursor.wf(),
    ensures
        cursor.fits(size) ==> v.first_fit(cursor, size) == Some(cursor),
        v.first_fit(cursor, size) matches Some(hole) ==> {
            &&& hole.wf()
            &&& hole.fits(size)
            &&& hole.block == cursor.block
            &&& hole == cursor || (!cursor.fits(size) && hole.low >= cursor.high)
            &&& v.admits(cursor) ==> v.admits(hole)
        },
        v.first_fit(cursor, size) is None ==> !cursor.fits(size) && v.exhausted(
            cursor.block,
            cursor.high as int,
            size,
        ),
{
    if cursor.fits(size) {
        lemma_first_fit_is(v, cursor, size, cursor);
    }
    match v.first_fit(cursor, size) {
        Some(hole) => {
            assert(v.is_first_fit(cursor, size, hole));
            if !cursor.fits(size) {
                let l = line_of(hole.low as int);
                let h = line_of(hole.high as int);
                if v.admits(cursor) {
                    assert forall|line: int|
                        hole.touches_line(line) implies !#[trigger] v.line_marked(
                        hole.block,
                        line,
                    ) by {
                        assert(l <= line < h);
                    }
                }
            }
        },
        None => {
            lemma_exhausted_or_fit(v, cursor, size, NUM_LINES_PER_BLOCK as int);
        },
    }
}

/// Either some hole after the cursor is the first fit of a cursor that is too
/// small, or no run of unmarked lines that begins before line `before` holds
/// `size` bytes.
proof fn lemma_exhausted_or_fit(v: AllocatorView, cursor: BlockCursor, size: usize, before: int)
    requires
        cursor.wf(),
        !cursor.fits(size),
        first_line(cursor.high as int) <= before <= NUM_LINES_PER_BLOCK,
    ensures
        v.first_fit(cursor, size) is Some || v.no_room(
            cursor.block,
            first_line(cursor.high as int),
            before,
            size,
        ),
    decreases before - first_line(cursor.high as int),
{
    let from = first_line(cursor.high as int);
    let block = cursor.block;
    if before > from {
        lemma_exhausted_or_fit(v, cursor, size, before - 1);
        if v.first_fit(cursor, size) is None {
            let a = before - 1;
            // The longest run of unmarked lines that begins at line `a`.
            let b = run_end(v, block, a, NUM_LINES_PER_BLOCK as int);
            lemma_run_end(v, block, a, NUM_LINES_PER_BLOCK as int);
            if (b - a) * LINE_SIZE >= size {
                let hole = BlockCursor {
                    block,
                    low: (a * LINE_SIZE) as u16,
                    high: (b * LINE_SIZE) as u16,
                };
                assert(line_of(hole.low as int) == a);
                assert(line_of(hole.high as int) == b);
                assert(v.is_first_fit(cursor, size, hole));
                lemma_first_fit_is(v, cursor, size, hole);
            } else {
                assert forall|x: int, y: int|
                    from <= x < before && x < y <= NUM_LINES_PER_BLOCK && #[trigger] v.lines_clear(
                        block,
                        x,
                        y,
                    ) implies (y - x) * LINE_SIZE < size by {
                    if x == a {
                        if y > b {
                            assert(!v.line_marked(block, b));
                        }
                    }
                }
            }
        }
    }
}

/// The end of the longest run of unmarked lines of `block` that begins at
/// line `from` and ends at or before line `limit`.
spec fn run_end(v: AllocatorView, block: BlockHandle, from: int, limit: int) -> int
    decreases limit - from,
{
    if from >= limit || v.line_marked(block, from) {
        from
    } else {
        run_end(v, block, from + 1, limit)
    }
}

/// `run_end` is the end of a run of unmarked lines, and the run goes no
/// further.
proof fn lemma_run_end(v: AllocatorView, block: BlockHandle, from: int, limit: int)
    requires
        from <= limit,
    ensures
        from <= run_end(v, block, from, limit) <= limit,
        v.lines_clear(block, from, run_end(v, block, from, limit)),
        run_end(v, block, from, limit) < limit ==> v.line_marked(
            block,
            run_end(v, block, from, limit),
        ),
    decreases limit - from,
{
    if from < limit && !v.line_marked(block, from) {
        lemma_run_end(v, block, from + 1, limit);
    }
}

} // verus!
