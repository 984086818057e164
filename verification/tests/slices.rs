use parquet_sma::row_index::{shift_row_index, RowIndex};
use parquet_sma::scan::{
    batch_size, effective_strategy, BatchScan, FilePlan, ParallelStrategy,
};
use parquet_sma::slice::split_slice_at_file;
use parquet_sma::tail::{
    begin_slice, next_chunk, ScanSlice, SliceStart, SliceWalk, COUNTED_AT_A_TIME,
};

fn counts_of(files: &[Vec<u32>]) -> Vec<usize> {
    files.iter().map(|f| f.len()).collect()
}

fn rows_of(files: &[Vec<u32>], plans: &[FilePlan]) -> Vec<u32> {
    let mut rows = Vec::new();
    for p in plans {
        rows.extend_from_slice(&files[p.source][p.slice.0..p.slice.0 + p.slice.1]);
    }
    rows
}

fn translate(
    counts: &Vec<usize>,
    pre_slice: Option<(i64, usize)>,
    has_row_index: bool,
) -> ScanSlice {
    match begin_slice(pre_slice) {
        SliceStart::Ready(s) => s,
        SliceStart::FromEnd(mut walk) => {
            let mut left = counts.len();
            while let Some((last, count)) = next_chunk(left, 2) {
                left -= count;
                let rows: Vec<usize> = (left..=last).rev().map(|i| counts[i]).collect();
                walk.visit_chunk(last, &rows, has_row_index);
            }
            walk.finish(pre_slice.unwrap().1)
        }
    }
}

fn scan_all(counts: &[usize], step: usize, slice: ScanSlice) -> Vec<FilePlan> {
    let mut scan = BatchScan::new(counts.len(), step, slice);
    let mut plans = Vec::new();
    while let Some((first, end)) = scan.next_batch() {
        let batch = counts[first..end].to_vec();
        plans.extend(scan.plan_batch(&batch));
    }
    plans
}

fn expected(rows: &[u32], pre_slice: Option<(i64, usize)>) -> Vec<u32> {
    let n = rows.len() as i128;
    let (first, end) = match pre_slice {
        None => (0, n),
        Some((o, l)) => {
            let first = if o >= 0 { o as i128 } else { n + o as i128 };
            (first, first + l as i128)
        }
    };
    (0..n)
        .filter(|i| first <= *i && *i < end)
        .map(|i| rows[i as usize])
        .collect()
}

#[test]
fn slice_is_split_at_files() {
    let mut offset = 0;
    assert_eq!(split_slice_at_file(&mut offset, 1, 1, 2), (0, 0));
    assert_eq!(split_slice_at_file(&mut offset, 1, 1, 2), (0, 1));
    assert_eq!(split_slice_at_file(&mut offset, 1, 1, 2), (0, 0));
    assert_eq!(offset, 3);
}

#[test]
fn slice_starts_and_ends_inside_a_file() {
    let mut offset = 10;
    assert_eq!(split_slice_at_file(&mut offset, 10, 13, 17), (3, 4));
    assert_eq!(offset, 20);
    assert_eq!(split_slice_at_file(&mut offset, 10, 13, 25), (0, 5));
    assert_eq!(split_slice_at_file(&mut offset, 0, 0, 100), (0, 0));
    assert_eq!(split_slice_at_file(&mut offset, 10, 35, 35), (5, 0));
}

#[test]
fn slice_may_be_absent_or_count_from_the_start() {
    assert_eq!(
        begin_slice(None),
        SliceStart::Ready(ScanSlice { first_source: 0, start: 0, end: usize::MAX })
    );
    assert_eq!(
        begin_slice(Some((5, 7))),
        SliceStart::Ready(ScanSlice { first_source: 0, start: 5, end: 12 })
    );
    assert_eq!(
        begin_slice(Some((5, usize::MAX))),
        SliceStart::Ready(ScanSlice { first_source: 0, start: 5, end: usize::MAX })
    );
}

#[test]
fn slice_may_count_from_the_end() {
    assert_eq!(begin_slice(Some((-3, 2))), SliceStart::FromEnd(SliceWalk::new(3)));
    assert_eq!(
        begin_slice(Some((i64::MIN, 2))),
        SliceStart::FromEnd(SliceWalk::new(1 << 63))
    );
}

#[test]
fn slice_longer_than_the_rows_is_trimmed() {
    // The slice starts 100 rows before the end of a file of 50 rows, and has a
    // length of 75 rows: only the first 25 rows exist.
    let s = translate(&vec![50], Some((-100, 75)), false);
    assert_eq!(s, ScanSlice { first_source: 0, start: 0, end: 25 });
    let s = translate(&vec![50], Some((-100, 40)), false);
    assert_eq!(s, ScanSlice { first_source: 0, start: 0, end: 0 });
    let s = translate(&vec![], Some((-100, 40)), false);
    assert_eq!(s, ScanSlice { first_source: 0, start: 0, end: 0 });
}

#[test]
fn files_are_counted_from_the_last_on() {
    assert_eq!(COUNTED_AT_A_TIME, 8);
    assert_eq!(next_chunk(19, 8), Some((18, 8)));
    assert_eq!(next_chunk(11, 8), Some((10, 8)));
    assert_eq!(next_chunk(3, 8), Some((2, 3)));
    assert_eq!(next_chunk(8, 8), Some((7, 8)));
    assert_eq!(next_chunk(0, 8), None);
}

#[test]
fn walk_finds_the_first_file() {
    let mut walk = SliceWalk::new(7);
    walk.visit_chunk(3, &vec![5, 3, 6, 4], true);
    assert_eq!(walk.first_source, 2);
    assert_eq!(walk.cum_rows, 8);
    assert_eq!(walk.first_source_row_offset, 10);
    assert_eq!(walk.finish(3), ScanSlice { first_source: 2, start: 1, end: 4 });
}

#[test]
fn walk_stops_early_only_without_a_row_index() {
    let mut walk = SliceWalk::new(7);
    assert!(!walk.visit(3, 5, false));
    assert!(walk.visit(2, 3, false));
    let mut full = SliceWalk::new(7);
    assert!(!full.visit(3, 5, true));
    assert!(!full.visit(2, 3, true));
    assert!(!full.visit(1, 6, true));
    assert!(!full.visit(0, 4, true));
    assert_eq!(walk.finish(9), full.finish(9));
    assert_eq!(full.first_source_row_offset, 10);
    assert_eq!(walk.first_source_row_offset, 0);
}

#[test]
fn scans_agree_on_what_both_read() {
    let counts = vec![3, 0, 4, 2, 5, 1];
    for pre_slice in [None, Some((2, 6)), Some((-9, 4)), Some((-40, 30))] {
        let few = scan_all(&counts, 1, translate(&counts, pre_slice, false));
        let many = scan_all(&counts, 4, translate(&counts, pre_slice, true));
        for (a, b) in few.iter().zip(many.iter()) {
            assert_eq!(a, b);
        }
    }
}

#[test]
fn walk_passes_over_the_rest_of_a_chunk() {
    let mut walk = SliceWalk::new(7);
    walk.visit_chunk(3, &vec![5, 3, 6], false);
    assert_eq!(walk.first_source, 2);
    assert_eq!(walk.first_source_row_offset, 0);
    walk.visit_chunk(0, &vec![4], false);
    assert_eq!(walk.first_source_row_offset, 4);
    assert_eq!(walk.finish(3), ScanSlice { first_source: 2, start: 1, end: 4 });
}

#[test]
fn scan_reads_the_requested_rows() {
    let files = vec![vec![0, 1, 2], vec![], vec![3], vec![4, 5, 6, 7], vec![8, 9]];
    let rows: Vec<u32> = files.concat();
    let counts = counts_of(&files);
    let mut slices = vec![None];
    for offset in -13i64..12 {
        for len in 0usize..13 {
            slices.push(Some((offset, len)));
        }
    }
    for pre_slice in slices {
        let slice = translate(&counts, pre_slice, false);
        assert_eq!(slice, translate(&counts, pre_slice, true));
        for step in 1usize..7 {
            let plans = scan_all(&counts, step, slice);
            assert_eq!(rows_of(&files, &plans), expected(&rows, pre_slice));
        }
    }
}

#[test]
fn scan_stops_after_the_batch_that_ends_the_slice() {
    let counts = vec![5, 5, 5, 5, 5];
    let slice = ScanSlice { first_source: 0, start: 2, end: 9 };
    let plans = scan_all(&counts, 2, slice);
    assert_eq!(
        plans,
        vec![
            FilePlan { source: 0, cumulative_read: 0, slice: (2, 3) },
            FilePlan { source: 1, cumulative_read: 5, slice: (0, 4) },
        ]
    );
    // Something is read even if the slice is empty.
    let empty = ScanSlice { first_source: 0, start: 0, end: 0 };
    assert_eq!(
        scan_all(&counts, 2, empty),
        vec![
            FilePlan { source: 0, cumulative_read: 0, slice: (0, 0) },
            FilePlan { source: 1, cumulative_read: 5, slice: (0, 0) },
        ]
    );
}

#[test]
fn scan_of_no_files_reads_nothing() {
    let slice = ScanSlice { first_source: 0, start: 0, end: usize::MAX };
    assert_eq!(BatchScan::new(0, 4, slice).next_batch(), None);
}

#[test]
fn batches_cover_the_files_in_order() {
    let slice = ScanSlice { first_source: 1, start: 0, end: usize::MAX };
    let mut scan = BatchScan::new(6, 3, slice);
    assert_eq!(scan.next_batch(), Some((1, 4)));
    scan.plan_batch(&vec![1, 1, 1]);
    assert_eq!(scan.next_batch(), Some((4, 6)));
    scan.plan_batch(&vec![1, 1]);
    assert_eq!(scan.next_batch(), None);
    assert_eq!(scan.current_offset, 5);
}

#[test]
fn row_numbers_continue_over_files() {
    let counts = vec![4, 6, 3, 5];
    let base = Some(RowIndex { name: "nr".to_string(), offset: 100 });
    let mut walk = SliceWalk::new(7);
    walk.visit_chunk(3, &vec![5, 3], true);
    walk.visit_chunk(1, &vec![6, 4], true);
    let moved = shift_row_index(&base, walk.first_source_row_offset);
    let plans = scan_all(&counts, 128, walk.finish(7));
    let offsets: Vec<u32> = plans
        .iter()
        .map(|p| shift_row_index(&moved, p.cumulative_read).unwrap().offset)
        .collect();
    assert_eq!(offsets, vec![110, 113]);
    assert_eq!(moved.unwrap().name, "nr");
    assert!(shift_row_index(&None, 17).is_none());
}

#[test]
fn row_counts_are_cut_to_row_numbers() {
    let base = Some(RowIndex { name: "nr".to_string(), offset: 7 });
    let r = shift_row_index(&base, (1usize << 32) + 5).unwrap();
    assert_eq!(r.offset, 12);
}

#[test]
fn strategy_depends_on_the_number_of_files() {
    let auto = ParallelStrategy::Auto;
    assert_eq!(effective_strategy(auto, 9, 8), ParallelStrategy::RowGroups);
    assert_eq!(effective_strategy(auto, 8, 8), ParallelStrategy::Auto);
    for s in [
        ParallelStrategy::Sequential,
        ParallelStrategy::Columns,
        ParallelStrategy::RowGroups,
        ParallelStrategy::Prefiltered,
    ] {
        assert_eq!(effective_strategy(s, 9, 8), s);
    }
}

#[test]
fn batches_are_limited() {
    assert_eq!(batch_size(8), 8);
    assert_eq!(batch_size(128), 128);
    assert_eq!(batch_size(1000), 128);
}
