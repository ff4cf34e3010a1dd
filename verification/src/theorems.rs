//! What holds of every allocation, proved from the contracts of the cascade.
use vstd::prelude::*;
use crate::cursor::{BlockCursor, BlockHandle, MemoryRange};
use crate::internal::{BLOCK_SIZE, LINE_SIZE, NUM_LINES_PER_BLOCK};
use crate::model::{
    first_line, lemma_first_fit_is, lemma_first_fit_props, line_of, AllocatorView, HookCall,
};

verus! {

/// `views`, `sizes` and `results` record a run of allocations on one
/// strategy: allocation `k` asks for `sizes[k]` bytes, takes the strategy from
/// `views[k]` to `views[k + 1]` and returns `results[k]`.
pub open spec fn is_run(
    views: Seq<AllocatorView>,
    sizes: Seq<usize>,
    results: Seq<Option<MemoryRange>>,
) -> bool {
    &&& views.len() == sizes.len() + 1
    &&& results.len() == sizes.len()
    &&& forall|k: int|
        #![trigger sizes[k]]
        0 <= k < sizes.len() ==> views[k].allocation(sizes[k], views[k + 1], results[k])
}

/// A successful allocation ends with the store of the cursor that begins
/// where the returned range ends: reserved from `(block, low, high)`, the
/// range is `[low, low + size)` and the stored cursor is
/// `(block, low + size, high)`, with `low + size <= high`.
pub proof fn lemma_stored_cursor(
    pre: AllocatorView,
    size: usize,
    post: AllocatorView,
    range: MemoryRange,
)
    requires
        pre.allocation(size, post, Some(range)),
    ensures
        post.history.len() > pre.history.len(),
        post.history.last() matches HookCall::PutCurrentBlock { cursor: stored } && {
            &&& stored.block == range.block
            &&& stored.low == range.low + size
            &&& stored.low == range.high
            &&& stored.low <= stored.high <= BLOCK_SIZE
            &&& stored == (BlockCursor {
                block: range.block,
                low: range.low,
                high: stored.high,
            }).bumped(size)
        },
{
    let calls = post.history.skip(pre.history.len() as int);
    assert(pre.cascade(size, calls, Some(range)));
    assert(calls.len() > 0);
    assert(calls.last() == post.history.last());
    assert(calls[calls.len() - 1] is PutCurrentBlock);
}

/// Two successful allocations on one strategy, with any number of
/// allocations between them, return ranges that share no byte.
pub proof fn lemma_no_overlap(
    views: Seq<AllocatorView>,
    sizes: Seq<usize>,
    results: Seq<Option<MemoryRange>>,
)
    requires
        is_run(views, sizes, results),
    ensures
        forall|i: int, j: int|
            #![trigger results[i], results[j]]
            0 <= i < j < results.len() && results[i] is Some && results[j] is Some
                ==> results[i].unwrap().disjoint(results[j].unwrap()),
{
    assert forall|i: int, j: int|
        #![trigger results[i], results[j]]
        0 <= i < j < results.len() && results[i] is Some
            && results[j] is Some implies results[i].unwrap().disjoint(results[j].unwrap()) by {
        let first = results[i].unwrap();
        let second = results[j].unwrap();
        assert(sizes[i] == sizes[i]);
        assert(sizes[j] == sizes[j]);
        lemma_stored_cursor(views[i], sizes[i], views[i + 1], first);
        lemma_history_grows(views, sizes, results, i + 1, j);
        let at = views[i + 1].history.len() - 1;
        assert(views[j].history[at] == views[i + 1].history[at]);
        assert(views[j].grants(second, sizes[j]));
        if first.block == second.block {
            assert(first.high <= second.low);
        }
    }
}

/// Over a run of allocations the history only grows and the line marks stay.
pub proof fn lemma_history_grows(
    views: Seq<AllocatorView>,
    sizes: Seq<usize>,
    results: Seq<Option<MemoryRange>>,
    i: int,
    j: int,
)
    requires
        is_run(views, sizes, results),
        0 <= i <= j < views.len(),
    ensures
        views[i].history.is_prefix_of(views[j].history),
        views[i].marked == views[j].marked,
    decreases j - i,
{
    if i < j {
        lemma_history_grows(views, sizes, results, i, j - 1);
        assert(sizes[j - 1] == sizes[j - 1]);
        assert(views[j - 1].allocation(sizes[j - 1], views[j], results[j - 1]));
    }
}

/// A cursor that holds exactly `size` bytes serves the request and is left
/// empty; the next request of more than no bytes is not served from it, and a
/// hole that the scan then settles on lies wholly after what was reserved.
pub proof fn lemma_exact_fit(v: AllocatorView, cursor: BlockCursor, size: usize, next_size: usize)
    requires
        cursor.wf(),
        cursor.room() == size,
        next_size > 0,
    ensures
        v.first_fit(cursor, size) == Some(cursor),
        cursor.range(size) == (MemoryRange {
            block: cursor.block,
            low: cursor.low,
            high: cursor.high,
        }),
        cursor.bumped(size).low == cursor.bumped(size).high == cursor.high,
        !cursor.bumped(size).fits(next_size),
        v.first_fit(cursor.bumped(size), next_size) matches Some(hole) ==> hole != cursor.bumped(
            size,
        ) && hole.low >= cursor.high && hole.range(next_size).disjoint(cursor.range(size)),
{
    lemma_first_fit_is(v, cursor, size, cursor);
    lemma_first_fit_props(v, cursor.bumped(size), next_size);
}

/// Where step `k` of a scan looks for the next hole: at `start` for the first
/// hole, at the end of the hole before it for each other one.
pub open spec fn scan_start(start: int, holes: Seq<(int, int)>, k: int) -> int {
    if k == 0 {
        start
    } else {
        holes[k - 1].1
    }
}

/// The holes that a scan visits: the first is the next hole at or after
/// `start`, and each other one is the next hole after the end of the one
/// before it.
pub open spec fn is_scan_chain(
    v: AllocatorView,
    block: BlockHandle,
    start: int,
    holes: Seq<(int, int)>,
) -> bool {
    forall|k: int|
        0 <= k < holes.len() ==> v.is_next_hole(
            block,
            #[trigger] scan_start(start, holes, k),
            holes[k].0,
            holes[k].1,
        )
}

/// A scan only moves forward and is over after at most as many steps as the
/// block has lines: every hole it visits lies in the block at or after the
/// start, each lies wholly after the one before it, and there are no more of
/// them than lines from the start to the end of the block.
pub proof fn lemma_scan_progress(
    v: AllocatorView,
    block: BlockHandle,
    start: int,
    holes: Seq<(int, int)>,
)
    requires
        0 <= start <= BLOCK_SIZE,
        is_scan_chain(v, block, start, holes),
    ensures
        holes.len() <= NUM_LINES_PER_BLOCK - first_line(start),
        holes.len() <= BLOCK_SIZE / LINE_SIZE,
        forall|k: int|
            #![trigger holes[k]]
            0 <= k < holes.len() ==> start <= holes[k].0 < holes[k].1 <= BLOCK_SIZE,
        forall|i: int, j: int|
            #![trigger holes[i], holes[j]]
            0 <= i < j < holes.len() ==> holes[i].1 <= holes[j].0,
{
    lemma_scan_reaches(v, block, start, holes, holes.len() as int);
    assert forall|i: int, j: int|
        #![trigger holes[i], holes[j]]
        0 <= i < j < holes.len() implies holes[i].1 <= holes[j].0 by {
        lemma_scan_ordered(v, block, start, holes, i, j);
    }
    assert forall|k: int| #![trigger holes[k]] 0 <= k < holes.len() implies start <= holes[k].0
        < holes[k].1 <= BLOCK_SIZE by {
        lemma_scan_reaches(v, block, start, holes, k + 1);
        if k > 0 {
            lemma_scan_reaches(v, block, start, holes, k);
        }
    }
}

/// After `n` steps the scan has passed at least `n` lines, and is at or after
/// the start.
proof fn lemma_scan_reaches(
    v: AllocatorView,
    block: BlockHandle,
    start: int,
    holes: Seq<(int, int)>,
    n: int,
)
    requires
        0 <= start <= BLOCK_SIZE,
        is_scan_chain(v, block, start, holes),
        0 <= n <= holes.len(),
    ensures
        n <= NUM_LINES_PER_BLOCK - first_line(start),
        n > 0 ==> first_line(start) + n <= line_of(holes[n - 1].1) <= NUM_LINES_PER_BLOCK,
        n > 0 ==> start <= holes[n - 1].0 < holes[n - 1].1 <= BLOCK_SIZE,
        n > 0 ==> holes[n - 1].1 == line_of(holes[n - 1].1) * LINE_SIZE,
    decreases n,
{
    if n > 0 {
        lemma_scan_reaches(v, block, start, holes, n - 1);
        let hole = holes[n - 1];
        let from = scan_start(start, holes, n - 1);
        assert(v.is_next_hole(block, from, hole.0, hole.1));
        if n - 1 > 0 {
            assert(first_line(from) == line_of(from));
        }
    }
}

/// Of two holes that a scan visits, the later lies wholly after the earlier.
proof fn lemma_scan_ordered(
    v: AllocatorView,
    block: BlockHandle,
    start: int,
    holes: Seq<(int, int)>,
    i: int,
    j: int,
)
    requires
        0 <= start <= BLOCK_SIZE,
        is_scan_chain(v, block, start, holes),
        0 <= i < j < holes.len(),
    ensures
        holes[i].1 <= holes[j].0,
    decreases j - i,
{
    lemma_scan_reaches(v, block, start, holes, j);
    lemma_scan_reaches(v, block, start, holes, j + 1);
    assert(v.is_next_hole(block, scan_start(start, holes, j), holes[j].0, holes[j].1));
    assert(first_line(holes[j - 1].1) == line_of(holes[j - 1].1));
    assert(holes[j - 1].1 <= holes[j].0);
    if i < j - 1 {
        lemma_scan_ordered(v, block, start, holes, i, j - 1);
    }
}

/// The place of a hook in the order in which one allocation calls the hooks.
pub open spec fn hook_rank(call: HookCall) -> int {
    match call {
        HookCall::TakeCurrentBlock { .. } => 0,
        HookCall::FullBlock { .. } => 1,
        HookCall::NoHole { .. } => 2,
        HookCall::NewBlock { .. } => 3,
        HookCall::PutCurrentBlock { .. } => 4,
    }
}

/// One allocation calls each hook at most once and in a fixed order: the
/// current cursor is taken first, then a full block is reported, then the
/// strategy is asked what to do without a hole, then for a new block, and the
/// cursor is stored last. It succeeds exactly when it ends with the store of
/// a cursor, and fails exactly when it ends with the strategy having no new
/// block to give.
pub proof fn lemma_each_hook_once(
    v: AllocatorView,
    size: usize,
    calls: Seq<HookCall>,
    res: Option<MemoryRange>,
)
    requires
        v.cascade(size, calls, res),
    ensures
        1 <= calls.len() <= 5,
        calls[0] is TakeCurrentBlock,
        res is Some <==> calls.last() is PutCurrentBlock,
        res is None <==> calls.last() == (HookCall::NewBlock { offered: None }),
        forall|i: int, j: int|
            #![trigger calls[i], calls[j]]
            0 <= i < j < calls.len() ==> hook_rank(calls[i]) < hook_rank(calls[j]),
{
}

/// A block is reported full at most once in one allocation, and only when the
/// cursor taken from the strategy is too small and no run of unmarked lines
/// at or after its end holds `size` bytes.
pub proof fn lemma_full_block_once(
    v: AllocatorView,
    size: usize,
    calls: Seq<HookCall>,
    res: Option<MemoryRange>,
)
    requires
        v.cascade(size, calls, res),
    ensures
        forall|i: int|
            0 <= i < calls.len() && #[trigger] calls[i] is FullBlock ==> {
                &&& i == 1
                &&& calls[0] matches HookCall::TakeCurrentBlock { taken: Some(cursor) }
                &&& calls[1] == HookCall::FullBlock { block: cursor.block }
                &&& !cursor.fits(size)
                &&& v.first_fit(cursor, size) is None
                &&& v.exhausted(cursor.block, cursor.high as int, size)
            },
{
    match calls[0] {
        HookCall::TakeCurrentBlock { taken: Some(cursor) } => {
            lemma_first_fit_props(v, cursor, size);
        },
        _ => {},
    }
}

/// Where the cursor taken from the strategy already holds `size` bytes, the
/// allocation reserves from it and stores what is left: the strategy is
/// neither told of a full block nor asked what to do without a hole nor asked
/// for a new block.
pub proof fn lemma_short_circuit(
    v: AllocatorView,
    size: usize,
    calls: Seq<HookCall>,
    res: Option<MemoryRange>,
    cursor: BlockCursor,
)
    requires
        v.cascade(size, calls, res),
        calls[0] == (HookCall::TakeCurrentBlock { taken: Some(cursor) }),
        cursor.fits(size),
    ensures
        calls == seq![
            HookCall::TakeCurrentBlock { taken: Some(cursor) },
            HookCall::PutCurrentBlock { cursor: cursor.bumped(size) },
        ],
        res == Some(cursor.range(size)),
        forall|i: int|
            0 <= i < calls.len() ==> !(#[trigger] calls[i] is NoHole) && !(calls[i] is NewBlock)
                && !(calls[i] is FullBlock),
{
    lemma_first_fit_is(v, cursor, size, cursor);
}

/// More generally, where the scan from the cursor taken settles on a hole of
/// its block, neither fallback hook is called.
pub proof fn lemma_hole_found_no_fallback(
    v: AllocatorView,
    size: usize,
    calls: Seq<HookCall>,
    res: Option<MemoryRange>,
    cursor: BlockCursor,
    hole: BlockCursor,
)
    requires
        v.cascade(size, calls, res),
        calls[0] == (HookCall::TakeCurrentBlock { taken: Some(cursor) }),
        v.first_fit(cursor, size) == Some(hole),
    ensures
        calls == seq![
            HookCall::TakeCurrentBlock { taken: Some(cursor) },
            HookCall::PutCurrentBlock { cursor: hole.bumped(size) },
        ],
        res == Some(hole.range(size)),
{
}

} // verus!
