use immix_allocator::allocator::Allocator;
use immix_allocator::cursor::{BlockCursor, BlockHandle, MemoryRange};
use immix_allocator::internal::{BLOCK_SIZE, LINE_SIZE, NUM_LINES_PER_BLOCK};
use immix_allocator::model::HookCall;
use std::cell::Cell;
use std::collections::VecDeque;

/// A strategy that answers from a script and records every hook call.
struct Scripted {
    /// `marks[block][line]`: whether the line holds live data.
    marks: Vec<Vec<bool>>,
    current: Option<BlockCursor>,
    no_hole_answers: VecDeque<BlockCursor>,
    new_blocks: VecDeque<BlockCursor>,
    log: Vec<HookCall>,
    scans: Cell<usize>,
}

impl Scripted {
    fn with_blocks(blocks: usize) -> Scripted {
        Scripted {
            marks: vec![vec![false; NUM_LINES_PER_BLOCK]; blocks],
            current: None,
            no_hole_answers: VecDeque::new(),
            new_blocks: VecDeque::new(),
            log: Vec::new(),
            scans: Cell::new(0),
        }
    }

    fn mark(&mut self, block: usize, lines: std::ops::Range<usize>) {
        for line in lines {
            self.marks[block][line] = true;
        }
    }
}

impl Allocator for Scripted {
    fn scan_block(&self, block: BlockHandle, start: u16) -> Option<(u16, u16)> {
        self.scans.set(self.scans.get() + 1);
        let marks = &self.marks[block.index];
        let mut line = (start as usize + LINE_SIZE - 1) / LINE_SIZE;
        while line < NUM_LINES_PER_BLOCK && marks[line] {
            line += 1;
        }
        if line == NUM_LINES_PER_BLOCK {
            return None;
        }
        let low = line;
        while line < NUM_LINES_PER_BLOCK && !marks[line] {
            line += 1;
        }
        Some(((low * LINE_SIZE) as u16, (line * LINE_SIZE) as u16))
    }

    fn take_current_block(&mut self) -> Option<BlockCursor> {
        let taken = self.current.take();
        self.log.push(HookCall::TakeCurrentBlock { taken });
        taken
    }

    fn put_current_block(&mut self, cursor: BlockCursor) {
        self.log.push(HookCall::PutCurrentBlock { cursor });
        self.current = Some(cursor);
    }

    fn get_new_block(&mut self) -> Option<BlockCursor> {
        let offered = self.new_blocks.pop_front();
        self.log.push(HookCall::NewBlock { offered });
        offered
    }

    fn handle_no_hole(&mut self, size: usize) -> Option<BlockCursor> {
        let offered = match self.no_hole_answers.front() {
            Some(cursor) if (cursor.high - cursor.low) as usize >= size => {
                self.no_hole_answers.pop_front()
            }
            _ => None,
        };
        self.log.push(HookCall::NoHole { size, offered });
        offered
    }

    fn handle_full_block(&mut self, block: BlockHandle) {
        self.log.push(HookCall::FullBlock { block });
    }
}

fn block(index: usize) -> BlockHandle {
    BlockHandle { index }
}

fn cursor(index: usize, low: u16, high: u16) -> BlockCursor {
    BlockCursor { block: block(index), low, high }
}

fn range(index: usize, low: u16, high: u16) -> MemoryRange {
    MemoryRange { block: block(index), low, high }
}

fn whole(index: usize) -> BlockCursor {
    cursor(index, 0, BLOCK_SIZE as u16)
}

fn overlap(a: &MemoryRange, b: &MemoryRange) -> bool {
    a.block == b.block && a.low < b.high && b.low < a.high
}

#[test]
fn geometry_is_sixteen_kib_blocks_of_128_byte_lines() {
    assert_eq!(BLOCK_SIZE, 16384);
    assert_eq!(LINE_SIZE, 128);
    assert_eq!(NUM_LINES_PER_BLOCK, 128);
    assert_eq!(NUM_LINES_PER_BLOCK * LINE_SIZE, BLOCK_SIZE);
}

#[test]
fn fresh_block_serves_small_request() {
    let mut s = Scripted::with_blocks(1);
    s.current = Some(cursor(0, 0, 16384));
    assert_eq!(s.allocate(64), Some(range(0, 0, 64)));
    assert_eq!(s.current, Some(cursor(0, 64, 16384)));
    assert_eq!(
        s.log,
        vec![
            HookCall::TakeCurrentBlock { taken: Some(cursor(0, 0, 16384)) },
            HookCall::PutCurrentBlock { cursor: cursor(0, 64, 16384) },
        ]
    );
    assert_eq!(s.scans.get(), 0);
}

#[test]
fn last_line_too_small_reports_full_block_and_falls_back() {
    let mut s = Scripted::with_blocks(1);
    s.current = Some(cursor(0, 16320, 16384));
    assert_eq!(s.allocate(128), None);
    assert_eq!(
        s.log,
        vec![
            HookCall::TakeCurrentBlock { taken: Some(cursor(0, 16320, 16384)) },
            HookCall::FullBlock { block: block(0) },
            HookCall::NoHole { size: 128, offered: None },
            HookCall::NewBlock { offered: None },
        ]
    );
    assert_eq!(s.scans.get(), 1);
    assert_eq!(s.current, None);
}

#[test]
fn last_line_too_small_then_new_block_serves() {
    let mut s = Scripted::with_blocks(2);
    s.current = Some(cursor(0, 16320, 16384));
    s.new_blocks.push_back(whole(1));
    assert_eq!(s.allocate(128), Some(range(1, 0, 128)));
    assert_eq!(
        s.log,
        vec![
            HookCall::TakeCurrentBlock { taken: Some(cursor(0, 16320, 16384)) },
            HookCall::FullBlock { block: block(0) },
            HookCall::NoHole { size: 128, offered: None },
            HookCall::NewBlock { offered: Some(whole(1)) },
            HookCall::PutCurrentBlock { cursor: cursor(1, 128, 16384) },
        ]
    );
}

#[test]
fn no_cursor_and_no_fallback_takes_new_block() {
    let mut s = Scripted::with_blocks(3);
    s.new_blocks.push_back(whole(2));
    assert_eq!(s.allocate(256), Some(range(2, 0, 256)));
    assert_eq!(s.current, Some(cursor(2, 256, 16384)));
    assert_eq!(
        s.log,
        vec![
            HookCall::TakeCurrentBlock { taken: None },
            HookCall::NoHole { size: 256, offered: None },
            HookCall::NewBlock { offered: Some(whole(2)) },
            HookCall::PutCurrentBlock { cursor: cursor(2, 256, 16384) },
        ]
    );
    assert_eq!(s.scans.get(), 0);
}

#[test]
fn exact_fit_leaves_empty_cursor() {
    let mut s = Scripted::with_blocks(4);
    s.current = Some(cursor(3, 4096, 4224));
    assert_eq!(s.allocate(128), Some(range(3, 4096, 4224)));
    assert_eq!(s.current, Some(cursor(3, 4224, 4224)));
    assert_eq!(s.scans.get(), 0);
}

#[test]
fn nothing_available_returns_none() {
    let mut s = Scripted::with_blocks(1);
    assert_eq!(s.allocate(64), None);
    assert_eq!(
        s.log,
        vec![
            HookCall::TakeCurrentBlock { taken: None },
            HookCall::NoHole { size: 64, offered: None },
            HookCall::NewBlock { offered: None },
        ]
    );
    assert_eq!(s.current, None);
}

#[test]
fn failure_changes_nothing_on_retry() {
    let mut s = Scripted::with_blocks(1);
    assert_eq!(s.allocate(64), None);
    assert_eq!(s.allocate(64), None);
    assert_eq!(s.log.len(), 6);
    assert_eq!(s.log[0..3], s.log[3..6]);
}

#[test]
fn request_larger_than_a_block_calls_no_hook() {
    let mut s = Scripted::with_blocks(2);
    s.current = Some(cursor(0, 0, 16384));
    s.new_blocks.push_back(whole(1));
    assert_eq!(s.allocate(BLOCK_SIZE + 1), None);
    assert_eq!(s.allocate(usize::MAX), None);
    assert_eq!(s.allocate(65536 + 64), None);
    assert!(s.log.is_empty());
    assert_eq!(s.scans.get(), 0);
    assert_eq!(s.current, Some(cursor(0, 0, 16384)));
    assert_eq!(s.new_blocks.len(), 1);
}

#[test]
fn request_of_a_whole_block_is_served() {
    let mut s = Scripted::with_blocks(1);
    s.new_blocks.push_back(whole(0));
    assert_eq!(s.allocate(BLOCK_SIZE), Some(range(0, 0, 16384)));
    assert_eq!(s.current, Some(cursor(0, 16384, 16384)));
}

#[test]
fn request_of_no_bytes_reserves_an_empty_range() {
    let mut s = Scripted::with_blocks(1);
    s.current = Some(cursor(0, 512, 512));
    assert_eq!(s.allocate(0), Some(range(0, 512, 512)));
    assert_eq!(s.current, Some(cursor(0, 512, 512)));
    assert_eq!(s.scans.get(), 0);
}

#[test]
fn no_hole_answer_comes_before_new_block() {
    let mut s = Scripted::with_blocks(3);
    s.no_hole_answers.push_back(cursor(1, 1024, 2048));
    s.new_blocks.push_back(whole(2));
    assert_eq!(s.allocate(512), Some(range(1, 1024, 1536)));
    assert_eq!(
        s.log,
        vec![
            HookCall::TakeCurrentBlock { taken: None },
            HookCall::NoHole { size: 512, offered: Some(cursor(1, 1024, 2048)) },
            HookCall::PutCurrentBlock { cursor: cursor(1, 1536, 2048) },
        ]
    );
    assert_eq!(s.new_blocks.len(), 1);
}

#[test]
fn successive_ranges_never_overlap() {
    let mut s = Scripted::with_blocks(4);
    s.mark(0, 3..5);
    s.mark(0, 9..10);
    s.mark(0, 40..128);
    s.current = Some(cursor(0, 0, 384));
    s.new_blocks.push_back(whole(1));
    s.new_blocks.push_back(whole(2));
    s.new_blocks.push_back(whole(3));
    let sizes = [64, 200, 128, 8, 512, 16, 3000, 128, 4096, 16384, 24, 9000, 8000, 1];
    let mut got: Vec<MemoryRange> = Vec::new();
    for size in sizes {
        if let Some(r) = s.allocate(size) {
            assert_eq!((r.high - r.low) as usize, size);
            assert!(r.high as usize <= BLOCK_SIZE);
            let first = r.low as usize / LINE_SIZE;
            let end = (r.high as usize + LINE_SIZE - 1) / LINE_SIZE;
            for line in first..end {
                assert!(!s.marks[r.block.index][line]);
            }
            got.push(r);
        }
    }
    assert_eq!(got.len(), 12);
    assert_eq!(got[2], range(0, 640, 768));
    assert_eq!(got[6], range(0, 1808, 4808));
    assert_eq!(got[11], range(3, 24, 9024));
    for i in 0..got.len() {
        for j in (i + 1)..got.len() {
            assert!(!overlap(&got[i], &got[j]));
        }
    }
}

#[test]
fn stored_cursor_starts_where_the_range_ends() {
    let mut s = Scripted::with_blocks(1);
    s.current = Some(cursor(0, 1000, 5000));
    let r = s.allocate(376).unwrap();
    assert_eq!(r, range(0, 1000, 1376));
    assert_eq!(s.current, Some(cursor(0, 1376, 5000)));
    assert_eq!(s.log.last(), Some(&HookCall::PutCurrentBlock { cursor: cursor(0, 1376, 5000) }));
    let r = s.allocate(24).unwrap();
    assert_eq!(r, range(0, 1376, 1400));
    assert_eq!(s.current, Some(cursor(0, 1400, 5000)));
}

#[test]
fn empty_cursor_after_exact_fit_is_not_reused() {
    let mut s = Scripted::with_blocks(1);
    s.mark(0, 33..34);
    s.mark(0, 40..128);
    s.current = Some(cursor(0, 4096, 4224));
    assert_eq!(s.allocate(128), Some(range(0, 4096, 4224)));
    assert_eq!(s.scans.get(), 0);
    assert_eq!(s.allocate(64), Some(range(0, 4352, 4416)));
    assert_eq!(s.scans.get(), 1);
    assert_eq!(s.current, Some(cursor(0, 4416, 5120)));
}

#[test]
fn scan_skips_holes_that_are_too_short() {
    let mut s = Scripted::with_blocks(1);
    // One free line between marked lines up to line 20, then three free
    // lines, then marks up to line 30, then free to the end.
    for line in 0..20 {
        if line % 2 == 1 {
            s.mark(0, line..line + 1);
        }
    }
    s.mark(0, 20..21);
    s.mark(0, 24..30);
    let found = s.scan_for_hole(256, cursor(0, 0, 128));
    assert_eq!(found, Some(cursor(0, 21 * 128, 24 * 128)));
    assert_eq!(s.scans.get(), 10);
    assert!(s.log.is_empty());
    let found = s.scan_for_hole(512, cursor(0, 0, 128));
    assert_eq!(found, Some(cursor(0, 30 * 128, 16384)));
    assert!(s.log.is_empty());
}

#[test]
fn scan_never_takes_more_steps_than_lines() {
    let mut s = Scripted::with_blocks(1);
    for line in 0..NUM_LINES_PER_BLOCK {
        if line % 2 == 1 {
            s.mark(0, line..line + 1);
        }
    }
    assert_eq!(s.scan_for_hole(129, cursor(0, 0, 128)), None);
    assert!(s.scans.get() <= BLOCK_SIZE / LINE_SIZE);
    assert_eq!(s.scans.get(), 64);
    assert_eq!(s.log, vec![HookCall::FullBlock { block: block(0) }]);
}

#[test]
fn scan_returns_fitting_cursor_unchanged() {
    let mut s = Scripted::with_blocks(1);
    s.mark(0, 0..128);
    assert_eq!(s.scan_for_hole(100, cursor(0, 28, 128)), Some(cursor(0, 28, 128)));
    assert_eq!(s.scan_for_hole(0, cursor(0, 77, 77)), Some(cursor(0, 77, 77)));
    assert_eq!(s.scans.get(), 0);
    assert!(s.log.is_empty());
}

#[test]
fn scan_from_unaligned_end_starts_at_next_whole_line() {
    let mut s = Scripted::with_blocks(1);
    assert_eq!(s.scan_for_hole(64, cursor(0, 100, 130)), Some(cursor(0, 256, 16384)));
    assert_eq!(s.scans.get(), 1);
}

#[test]
fn scan_of_exhausted_block_reports_it_once() {
    let mut s = Scripted::with_blocks(2);
    s.mark(1, 10..128);
    assert_eq!(s.scan_for_hole(2000, cursor(1, 0, 1280)), None);
    assert_eq!(s.log, vec![HookCall::FullBlock { block: block(1) }]);
    assert_eq!(s.scans.get(), 1);
}

#[test]
fn full_block_is_reported_once_per_allocation() {
    let mut s = Scripted::with_blocks(2);
    s.mark(0, 2..3);
    s.mark(0, 5..6);
    s.mark(0, 8..128);
    s.current = Some(cursor(0, 0, 256));
    s.new_blocks.push_back(whole(1));
    assert_eq!(s.allocate(300), Some(range(1, 0, 300)));
    let reports = s.log.iter().filter(|c| matches!(c, HookCall::FullBlock { .. })).count();
    assert_eq!(reports, 1);
    assert_eq!(s.log[1], HookCall::FullBlock { block: block(0) });
    assert_eq!(s.scans.get(), 3);
}

#[test]
fn hole_in_current_block_short_circuits_fallback() {
    let mut s = Scripted::with_blocks(2);
    s.mark(0, 1..2);
    s.current = Some(cursor(0, 64, 128));
    s.no_hole_answers.push_back(cursor(1, 0, 4096));
    s.new_blocks.push_back(whole(1));
    assert_eq!(s.allocate(640), Some(range(0, 256, 896)));
    assert_eq!(
        s.log,
        vec![
            HookCall::TakeCurrentBlock { taken: Some(cursor(0, 64, 128)) },
            HookCall::PutCurrentBlock { cursor: cursor(0, 896, 16384) },
        ]
    );
    assert_eq!(s.no_hole_answers.len(), 1);
    assert_eq!(s.new_blocks.len(), 1);
}

#[test]
fn sufficient_cursor_calls_neither_fallback_hook() {
    let mut s = Scripted::with_blocks(2);
    s.current = Some(cursor(0, 128, 1024));
    s.no_hole_answers.push_back(cursor(1, 0, 4096));
    s.new_blocks.push_back(whole(1));
    for _ in 0..7 {
        assert!(s.allocate(128).is_some());
    }
    assert!(s.log.iter().all(|c| matches!(
        c,
        HookCall::TakeCurrentBlock { .. } | HookCall::PutCurrentBlock { .. }
    )));
    assert_eq!(s.log.len(), 14);
    assert_eq!(s.current, Some(cursor(0, 1024, 1024)));
}

#[test]
fn hooks_are_called_in_order() {
    let mut s = Scripted::with_blocks(2);
    s.mark(0, 1..128);
    s.current = Some(cursor(0, 0, 128));
    s.new_blocks.push_back(whole(1));
    assert_eq!(s.allocate(4096), Some(range(1, 0, 4096)));
    let ranks: Vec<u8> = s
        .log
        .iter()
        .map(|c| match c {
            HookCall::TakeCurrentBlock { .. } => 0,
            HookCall::FullBlock { .. } => 1,
            HookCall::NoHole { .. } => 2,
            HookCall::NewBlock { .. } => 3,
            HookCall::PutCurrentBlock { .. } => 4,
        })
        .collect();
    assert_eq!(ranks, vec![0, 1, 2, 3, 4]);
}

#[test]
fn allocate_from_block_bumps_low_offset() {
    let s = Scripted::with_blocks(1);
    let (next, reserved) = s.allocate_from_block(64, cursor(0, 0, 16384));
    assert_eq!(next, cursor(0, 64, 16384));
    assert_eq!(reserved, range(0, 0, 64));
    let (next, reserved) = s.allocate_from_block(16384, cursor(0, 0, 16384));
    assert_eq!(next, cursor(0, 16384, 16384));
    assert_eq!(reserved, range(0, 0, 16384));
    let (next, reserved) = s.allocate_from_block(0, cursor(0, 9, 9));
    assert_eq!(next, cursor(0, 9, 9));
    assert_eq!(reserved, range(0, 9, 9));
    assert!(s.log.is_empty());
}

#[test]
fn block_fills_up_line_by_line() {
    let mut s = Scripted::with_blocks(2);
    s.current = Some(whole(0));
    s.new_blocks.push_back(whole(1));
    for k in 0..NUM_LINES_PER_BLOCK {
        let low = (k * LINE_SIZE) as u16;
        assert_eq!(s.allocate(LINE_SIZE), Some(range(0, low, low + 128)));
    }
    assert_eq!(s.current, Some(cursor(0, 16384, 16384)));
    assert_eq!(s.allocate(LINE_SIZE), Some(range(1, 0, 128)));
    let reports = s.log.iter().filter(|c| matches!(c, HookCall::FullBlock { .. })).count();
    assert_eq!(reports, 1);
}
