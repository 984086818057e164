//! The order in which the files of a scan are read, and what is read of each.
//!
//! Files are read in batches. The numbers of rows in the files of a batch are
//! looked up first, so that the slice of every file is known before any of them
//! is read.

use crate::slice::{
    counts_of, file_slice, law_file_slice, lemma_flatten_counts, lemma_selected_is_window, lemma_total_rows_concat,
    lemma_total_rows_part, lesser, selected, split_slice_at_file, total_rows, window,
};
use crate::row_index::{can_shift, is_shifted, law_shift_twice, IdxSize, RowIndex};
use crate::tail::{
    law_early_stop, law_tail_slice, slice_start, tail_window, ScanSlice, SliceStart, SliceWalk,
};
use vstd::prelude::*;

verus! {

/// How the reader of a file spreads its work over threads.
#[derive(Debug, Clone, Copy, PartialEq, Eq, Structural)]
pub enum ParallelStrategy {
    /// Not at all.
    Sequential,
    /// Over the columns.
    Columns,
    /// Over the row groups.
    RowGroups,
    /// Over the row groups, with the predicate applied first.
    Prefiltered,
    /// As the reader finds best.
    Auto,
}

/// The strategy that the readers are given: with more files than threads, the
/// automatic choice is to spread the work over row groups.
pub fn effective_strategy(
    requested: ParallelStrategy,
    n_sources: usize,
    n_threads: usize,
) -> (r: ParallelStrategy)
    ensures
        r == if requested == ParallelStrategy::Auto && n_sources > n_threads {
            ParallelStrategy::RowGroups
        } else {
            requested
        },
{
    match requested {
        ParallelStrategy::Auto => if n_sources > n_threads {
            ParallelStrategy::RowGroups
        } else {
            ParallelStrategy::Auto
        },
        identity => identity,
    }
}

/// The largest number of files that are open at a time.
pub const MAX_OPEN_FILES: usize = 128;

/// The number of files in a batch when they are read by `n_threads` threads:
/// limited to prevent open file limits.
pub fn batch_size(n_threads: usize) -> (r: usize)
    ensures
        r == lesser(n_threads as int, MAX_OPEN_FILES as int),
        r <= n_threads,
        r <= 128,
        r == n_threads || r == 128,
{
    if n_threads < MAX_OPEN_FILES {
        n_threads
    } else {
        MAX_OPEN_FILES
    }
}

/// What is read of one file.
#[derive(Debug, Clone, Copy, PartialEq, Eq)]
pub struct FilePlan {
    /// The index of the file.
    pub source: usize,
    /// The rows in the files of the scan before this one.
    pub cumulative_read: usize,
    /// The offset of the first row in the file, and the number of rows.
    pub slice: (usize, usize),
}

/// How far a scan has come.
#[derive(Debug, Clone, Copy, PartialEq, Eq, Structural)]
pub struct BatchScan {
    /// The number of files.
    pub n_sources: usize,
    /// The number of files in a batch.
    pub step: usize,
    /// The rows to read: from the file with which the scan has started on.
    pub slice_start: usize,
    /// The position after the last row to read.
    pub slice_end: usize,
    /// The next file.
    pub next: usize,
    /// The rows in the files before it, from the file with which the scan has
    /// started on.
    pub current_offset: usize,
    /// The number of files that were read.
    pub n_read: usize,
}

impl BatchScan {
    /// A batch is not empty, and the slice does not end before it starts.
    pub open spec fn wf(self) -> bool {
        &&& self.step > 0
        &&& self.slice_start <= self.slice_end
        &&& self.n_read <= self.next
    }

    /// The files of the next batch, if there is one: after the last file, and
    /// once the slice has been read, there is none. Something is always read.
    pub open spec fn batch(self) -> Option<(int, int)> {
        if self.next >= self.n_sources || (self.current_offset >= self.slice_end && self.n_read
            > 0) {
            None
        } else {
            Some((self.next as int, lesser(self.next + self.step, self.n_sources as int)))
        }
    }

    /// What is read of the next files, which hold `counts` rows.
    pub open spec fn planned(self, counts: Seq<usize>) -> Seq<FilePlan> {
        Seq::new(
            counts.len(),
            |j: int|
                {
                    let offset = self.current_offset + total_rows(counts.take(j));
                    let s = file_slice(
                        offset,
                        counts[j] as int,
                        self.slice_start as int,
                        self.slice_end as int,
                    );
                    FilePlan {
                        source: (self.next + j) as usize,
                        cumulative_read: offset as usize,
                        slice: (s.0 as usize, s.1 as usize),
                    }
                },
        )
    }

    /// The scan after the next files, which hold `counts` rows.
    pub open spec fn advanced(self, counts: Seq<usize>) -> BatchScan {
        BatchScan {
            next: (self.next + counts.len()) as usize,
            current_offset: (self.current_offset + total_rows(counts)) as usize,
            n_read: (self.n_read + counts.len()) as usize,
            ..self
        }
    }

    /// Whether this scan is about to start reading `slice` from `n_sources`
    /// files.
    pub open spec fn starts(self, n_sources: int, slice: ScanSlice) -> bool {
        &&& self.wf()
        &&& self.n_sources == n_sources
        &&& self.slice_start == slice.start
        &&& self.slice_end == slice.end
        &&& self.next == slice.first_source
        &&& self.current_offset == 0
    }

    /// Starts a scan of the rows of `slice` in `n_sources` files.
    pub fn new(n_sources: usize, step: usize, slice: ScanSlice) -> (r: BatchScan)
        requires
            step > 0,
            slice.start <= slice.end,
        ensures
            r == (BatchScan {
                n_sources,
                step,
                slice_start: slice.start,
                slice_end: slice.end,
                next: slice.first_source,
                current_offset: 0,
                n_read: 0,
            }),
            r.wf(),
    {
        BatchScan {
            n_sources,
            step,
            slice_start: slice.start,
            slice_end: slice.end,
            next: slice.first_source,
            current_offset: 0,
            n_read: 0,
        }
    }

    /// The next files to read, from the first to before the last.
    pub fn next_batch(&self) -> (r: Option<(usize, usize)>)
        ensures
            match r {
                Some((first, end)) => self.batch() == Some((first as int, end as int)),
                None => self.batch() is None,
            },
    {
        if self.next >= self.n_sources || (self.current_offset >= self.slice_end && self.n_read
            > 0) {
            None
        } else {
            let end: usize = self.next.saturating_add(self.step);
            if end < self.n_sources {
                Some((self.next, end))
            } else {
                Some((self.next, self.n_sources))
            }
        }
    }

    /// Plans what is read of the next files, whose numbers of rows are
    /// `row_counts`, and moves on behind them.
    pub fn plan_batch(&mut self, row_counts: &Vec<usize>) -> (r: Vec<FilePlan>)
        requires
            old(self).wf(),
            old(self).next + row_counts.len() <= old(self).n_sources,
            old(self).current_offset + total_rows(row_counts@) <= usize::MAX,
        ensures
            r@ == old(self).planned(row_counts@),
            *final(self) == old(self).advanced(row_counts@),
            final(self).wf(),
    {
        let mut plans: Vec<FilePlan> = Vec::new();
        let mut offset: usize = self.current_offset;
        let ghost counts = row_counts@;
        assert(counts.take(0) =~= Seq::<usize>::empty());
        let mut j: usize = 0;
        while j < row_counts.len()
            invariant
                counts == row_counts@,
                *self == *old(self),
                self.wf(),
                j <= counts.len(),
                self.next + counts.len() <= self.n_sources,
                self.current_offset + total_rows(counts) <= usize::MAX,
                offset == self.current_offset + total_rows(counts.take(j as int)),
                plans@ == self.planned(counts).take(j as int),
            decreases counts.len() - j,
        {
            proof {
                lemma_next_file_fits(counts, j as int);
            }
            let cumulative_read: usize = offset;
            let slice: (usize, usize) = split_slice_at_file(
                &mut offset,
                row_counts[j],
                self.slice_start,
                self.slice_end,
            );
            plans.push(FilePlan { source: self.next + j, cumulative_read, slice });
            assert(plans@ =~= self.planned(counts).take(j + 1));
            j = j + 1;
        }
        assert(counts.take(j as int) =~= counts);
        assert(self.planned(counts).take(j as int) =~= self.planned(counts));
        self.next = self.next + row_counts.len();
        self.current_offset = offset;
        self.n_read = self.n_read + row_counts.len();
        plans
    }
}

/// The rows of the files up to and with file `j` are the rows before it and its
/// own, and no more than all rows.
proof fn lemma_next_file_fits(counts: Seq<usize>, j: int)
    requires
        0 <= j < counts.len(),
    ensures
        total_rows(counts.take(j + 1)) == total_rows(counts.take(j)) + counts[j],
        0 <= total_rows(counts.take(j)),
        total_rows(counts.take(j + 1)) <= total_rows(counts),
{
    assert(counts.take(j + 1) =~= counts.take(j) + seq![counts[j]]);
    lemma_total_rows_concat(counts.take(j), seq![counts[j]]);
    assert(seq![counts[j]].drop_first() =~= Seq::<usize>::empty());
    assert(total_rows(seq![counts[j]]) == counts[j]) by {
        reveal_with_fuel(total_rows, 2);
    }
    lemma_total_rows_part(counts, 0, j);
    lemma_total_rows_part(counts, 0, j + 1);
    assert(counts.take(j) =~= counts.subrange(0, j));
    assert(counts.take(j + 1) =~= counts.subrange(0, j + 1));
    assert(counts.skip(0) =~= counts);
}

/// The rows that `plans` read from `files`, in order.
pub open spec fn plan_rows<T>(plans: Seq<FilePlan>, files: Seq<Seq<T>>) -> Seq<T> {
    Seq::new(
        plans.len(),
        |j: int|
            files[plans[j].source as int].subrange(
                plans[j].slice.0 as int,
                plans[j].slice.0 + plans[j].slice.1,
            ),
    ).flatten()
}

/// Everything that `scan` still reads of files with `counts` rows, batch by
/// batch.
pub open spec fn scanned(scan: BatchScan, counts: Seq<usize>) -> Seq<FilePlan>
    decreases scan.n_sources - scan.next,
    when scan.wf() && scan.n_sources == counts.len()
{
    match scan.batch() {
        None => Seq::empty(),
        Some((first, end)) => {
            let batch = counts.subrange(first, end);
            scan.planned(batch) + scanned(scan.advanced(batch), counts)
        },
    }
}

/// Behind the end of the slice no row is selected.
proof fn lemma_nothing_after_end<T>(files: Seq<Seq<T>>, offset: int, start: int, end: int)
    requires
        offset >= end,
    ensures
        selected(files, offset, start, end) == Seq::<T>::empty(),
    decreases files.len(),
{
    if files.len() > 0 {
        lemma_nothing_after_end(files.drop_first(), offset + files.first().len(), start, end);
        assert(selected(files, offset, start, end) =~= Seq::<T>::empty());
    }
}

/// What is selected of two lists of files is selected of each in turn.
proof fn lemma_selected_concat<T>(
    a: Seq<Seq<T>>,
    b: Seq<Seq<T>>,
    a_counts: Seq<usize>,
    offset: int,
    start: int,
    end: int,
)
    requires
        counts_of(a, a_counts),
    ensures
        selected(a + b, offset, start, end) == selected(a, offset, start, end) + selected(
            b,
            offset + total_rows(a_counts),
            start,
            end,
        ),
    decreases a.len(),
{
    if a.len() == 0 {
        assert(a + b =~= b);
        assert(selected(a, offset, start, end) + selected(b, offset, start, end) =~= selected(
            b,
            offset,
            start,
            end,
        ));
    } else {
        assert((a + b).drop_first() =~= a.drop_first() + b);
        lemma_selected_concat(
            a.drop_first(),
            b,
            a_counts.drop_first(),
            offset + a.first().len(),
            start,
            end,
        );
        assert(selected(a + b, offset, start, end) =~= selected(a, offset, start, end) + selected(
            b,
            offset + total_rows(a_counts),
            start,
            end,
        ));
    }
}

/// The plans of two lists of plans read what each of them reads.
proof fn lemma_plan_rows_concat<T>(a: Seq<FilePlan>, b: Seq<FilePlan>, files: Seq<Seq<T>>)
    ensures
        plan_rows(a + b, files) == plan_rows(a, files) + plan_rows(b, files),
{
    let read = |plans: Seq<FilePlan>|
        Seq::new(
            plans.len(),
            |j: int|
                files[plans[j].source as int].subrange(
                    plans[j].slice.0 as int,
                    plans[j].slice.0 + plans[j].slice.1,
                ),
        );
    assert(read(a + b) =~= read(a) + read(b));
    vstd::seq_lib::lemma_flatten_concat(read(a), read(b));
}

/// The plans of a batch read what the slice selects of its files.
proof fn lemma_planned_rows<T>(scan: BatchScan, files: Seq<Seq<T>>, counts: Seq<usize>, end: int)
    requires
        scan.wf(),
        counts_of(files, counts),
        files.len() <= usize::MAX,
        scan.next <= end <= files.len(),
        scan.current_offset + total_rows(counts.subrange(scan.next as int, end)) <= usize::MAX,
    ensures
        plan_rows(scan.planned(counts.subrange(scan.next as int, end)), files) == selected(
            files.subrange(scan.next as int, end),
            scan.current_offset as int,
            scan.slice_start as int,
            scan.slice_end as int,
        ),
    decreases end - scan.next,
{
    let first = scan.next as int;
    let c = counts.subrange(first, end);
    let plans = scan.planned(c);
    let f = files.subrange(first, end);
    if first == end {
        assert(plans =~= Seq::<FilePlan>::empty());
        assert(plan_rows(plans, files) =~= Seq::<T>::empty());
    } else {
        let one = c.take(1);
        let rest = c.drop_first();
        let later = scan.advanced(one);
        assert(rest =~= counts.subrange(first + 1, end));
        assert(f.drop_first() =~= files.subrange(first + 1, end));
        assert(one.drop_first() =~= Seq::<usize>::empty());
        assert(total_rows(one) == c[0]) by {
            reveal_with_fuel(total_rows, 2);
        }
        lemma_total_rows_part(rest, 0, 0);
        lemma_planned_rows(later, files, counts, end);
        assert(plans =~= plans.take(1) + later.planned(rest)) by {
            assert forall|j: int| 1 <= j < c.len() implies plans[j] == #[trigger] later.planned(
                rest,
            )[j - 1] by {
                assert(c.take(j).drop_first() =~= rest.take(j - 1));
                lemma_total_rows_part(c, 0, j);
                assert(c.take(j) =~= c.subrange(0, j));
                assert(c.skip(0) =~= c);
            }
        }
        lemma_plan_rows_concat(plans.take(1), later.planned(rest), files);
        assert(c.take(0) =~= Seq::<usize>::empty());
        let head = f.first();
        let s = file_slice(
            scan.current_offset as int,
            head.len() as int,
            scan.slice_start as int,
            scan.slice_end as int,
        );
        let only = Seq::new(
            1,
            |j: int|
                files[plans.take(1)[j].source as int].subrange(
                    plans.take(1)[j].slice.0 as int,
                    plans.take(1)[j].slice.0 + plans.take(1)[j].slice.1,
                ),
        );
        only.lemma_flatten_one_element();
        assert(plan_rows(plans.take(1), files) =~= head.subrange(s.0, s.0 + s.1));
    }
}

/// What is left of a scan reads what the slice selects of the files left.
proof fn lemma_scan_rows<T>(scan: BatchScan, files: Seq<Seq<T>>, counts: Seq<usize>)
    requires
        scan.wf(),
        counts_of(files, counts),
        scan.n_sources == files.len(),
        scan.next <= scan.n_sources,
        scan.current_offset + total_rows(counts.skip(scan.next as int)) <= usize::MAX,
    ensures
        plan_rows(scanned(scan, counts), files) == selected(
            files.skip(scan.next as int),
            scan.current_offset as int,
            scan.slice_start as int,
            scan.slice_end as int,
        ),
    decreases scan.n_sources - scan.next,
{
    let start = scan.slice_start as int;
    let end = scan.slice_end as int;
    let left = files.skip(scan.next as int);
    match scan.batch() {
        None => {
            assert(plan_rows(scanned(scan, counts), files) =~= Seq::<T>::empty());
            if scan.next >= scan.n_sources {
                assert(left =~= Seq::<Seq<T>>::empty());
            } else {
                lemma_nothing_after_end(left, scan.current_offset as int, start, end);
            }
        },
        Some((a, b)) => {
            let c = counts.subrange(a, b);
            let later = scan.advanced(c);
            lemma_total_rows_part(counts, a, b);
            lemma_planned_rows(scan, files, counts, b);
            lemma_scan_rows(later, files, counts);
            lemma_plan_rows_concat(scan.planned(c), scanned(later, counts), files);
            assert(left =~= files.subrange(a, b) + files.skip(b));
            lemma_selected_concat(
                files.subrange(a, b),
                files.skip(b),
                c,
                scan.current_offset as int,
                start,
                end,
            );
        },
    }
}

/// A scan reads exactly the rows of its slice: what the plans of all its
/// batches read, one after the other, are the rows `start..end` of the files
/// from `first_source` on taken as one list. This holds although a scan stops
/// before the last file once the slice has been read.
pub proof fn law_scan_reads_slice<T>(
    files: Seq<Seq<T>>,
    counts: Seq<usize>,
    scan: BatchScan,
    slice: ScanSlice,
)
    requires
        counts_of(files, counts),
        total_rows(counts) <= usize::MAX,
        scan.wf(),
        scan.n_sources == files.len(),
        slice.first_source <= files.len(),
        scan.slice_start == slice.start,
        scan.slice_end == slice.end,
        scan.next == slice.first_source,
        scan.current_offset == 0,
    ensures
        plan_rows(scanned(scan, counts), files) == selected(
            files.skip(slice.first_source as int),
            0,
            slice.start as int,
            slice.end as int,
        ),
        plan_rows(scanned(scan, counts), files) == window(
            files.skip(slice.first_source as int).flatten(),
            slice.start as int,
            slice.end as int,
        ),
{
    let i = slice.first_source as int;
    lemma_total_rows_part(counts, i, i);
    lemma_scan_rows(scan, files, counts);
    lemma_selected_is_window(files.skip(i), 0, slice.start as int, slice.end as int);
}

/// How many files make a batch decides how many files are open at a time, and
/// not which rows are read.
pub proof fn law_batch_size_is_free<T>(
    files: Seq<Seq<T>>,
    counts: Seq<usize>,
    scan: BatchScan,
    step: usize,
)
    requires
        counts_of(files, counts),
        scan.wf(),
        scan.n_sources == files.len(),
        scan.next <= scan.n_sources,
        scan.current_offset + total_rows(counts.skip(scan.next as int)) <= usize::MAX,
        step > 0,
    ensures
        plan_rows(scanned(scan, counts), files) == plan_rows(
            scanned(BatchScan { step, ..scan }, counts),
            files,
        ),
{
    lemma_scan_rows(scan, files, counts);
    lemma_scan_rows(BatchScan { step, ..scan }, files, counts);
}

/// A scan reads the files in order, without a gap, counts for each all rows of
/// the files of the scan before it, and reads of each what its slice takes.
pub proof fn law_scan_counts_rows_before(scan: BatchScan, counts: Seq<usize>, j: int)
    requires
        scan.wf(),
        scan.n_sources == counts.len(),
        scan.next <= scan.n_sources,
        scan.current_offset + total_rows(counts.skip(scan.next as int)) <= usize::MAX,
        0 <= j < scanned(scan, counts).len(),
    ensures
        scan.next + j < counts.len(),
        scanned(scan, counts)[j].source == scan.next + j,
        scanned(scan, counts)[j].cumulative_read == scan.current_offset + total_rows(
            counts.subrange(scan.next as int, scan.next + j),
        ),
        ({
            let plan = scanned(scan, counts)[j];
            let s = file_slice(
                plan.cumulative_read as int,
                counts[plan.source as int] as int,
                scan.slice_start as int,
                scan.slice_end as int,
            );
            plan.slice == (s.0 as usize, s.1 as usize)
        }),
    decreases scan.n_sources - scan.next,
{
    match scan.batch() {
        None => {},
        Some((a, b)) => {
            let c = counts.subrange(a, b);
            let later = scan.advanced(c);
            lemma_total_rows_part(counts, a, b);
            if j < c.len() {
                assert(c.take(j) =~= counts.subrange(a, a + j));
                lemma_total_rows_part(counts, a, a + j);
            } else {
                law_scan_counts_rows_before(later, counts, j - c.len());
                assert(counts.subrange(a, a + j) =~= c + counts.subrange(b, a + j));
                lemma_total_rows_concat(c, counts.subrange(b, a + j));
            }
        },
    }
}

/// The rows of `rows` that `pre_slice` asks for.
pub open spec fn requested<T>(rows: Seq<T>, pre_slice: Option<(i64, usize)>) -> Seq<T> {
    match pre_slice {
        None => rows,
        Some((offset, len)) => if offset >= 0 {
            window(rows, offset as int, offset + len)
        } else {
            tail_window(rows, -offset, len as int)
        },
    }
}

/// Whether `slice` is what becomes of `pre_slice` for files with `counts` rows.
/// For an offset that counts from the end, `walk` has seen the files from `k`
/// on: all of them, or at least those from the file on in which the slice starts.
pub open spec fn translated(
    pre_slice: Option<(i64, usize)>,
    counts: Seq<usize>,
    walk: SliceWalk,
    k: int,
    slice: ScanSlice,
) -> bool {
    match slice_start(pre_slice) {
        SliceStart::Ready(ready) => slice == ready,
        SliceStart::FromEnd(start) => {
            &&& walk.slice_start_as_n_from_end == start.slice_start_as_n_from_end
            &&& 0 <= k <= counts.len()
            &&& walk.has_found(counts, k)
            &&& k == 0 || walk.first_source > 0
            &&& slice == walk.slice_for(pre_slice.unwrap().1)
        },
    }
}

/// A scan reads the rows that were asked for: those that the slice takes from
/// the rows of all files in one list, whichever end it counts from.
pub proof fn law_scan_reads_requested<T>(
    files: Seq<Seq<T>>,
    counts: Seq<usize>,
    pre_slice: Option<(i64, usize)>,
    walk: SliceWalk,
    k: int,
    slice: ScanSlice,
    scan: BatchScan,
)
    requires
        counts_of(files, counts),
        total_rows(counts) <= usize::MAX,
        pre_slice matches Some((offset, _)) ==> -usize::MAX <= offset <= usize::MAX,
        translated(pre_slice, counts, walk, k, slice),
        scan.wf(),
        scan.n_sources == files.len(),
        scan.slice_start == slice.start,
        scan.slice_end == slice.end,
        scan.next == slice.first_source,
        scan.current_offset == 0,
    ensures
        plan_rows(scanned(scan, counts), files) == requested(files.flatten(), pre_slice),
{
    let from_end = pre_slice matches Some((offset, _)) && offset < 0;
    assert(files.skip(0) =~= files);
    lemma_flatten_counts(files, counts);
    if from_end {
        law_tail_slice(files, counts, walk, pre_slice.unwrap().1);
        law_scan_reads_slice(files, counts, scan, slice);
    } else {
        law_scan_reads_slice(files, counts, scan, slice);
        assert(window(files.flatten(), slice.start as int, slice.end as int) =~= requested(
            files.flatten(),
            pre_slice,
        ));
    }
}

/// Scans that are asked for the same rows of the same files read the same rows in
/// the same order, and plan the same for each file that both read. How far the
/// files were walked to find the first one, and how many files are read at a
/// time, does not matter.
pub proof fn law_scans_agree<T>(
    files: Seq<Seq<T>>,
    counts: Seq<usize>,
    pre_slice: Option<(i64, usize)>,
    walk_a: SliceWalk,
    k_a: int,
    slice_a: ScanSlice,
    a: BatchScan,
    walk_b: SliceWalk,
    k_b: int,
    slice_b: ScanSlice,
    b: BatchScan,
)
    requires
        counts_of(files, counts),
        total_rows(counts) <= usize::MAX,
        translated(pre_slice, counts, walk_a, k_a, slice_a),
        translated(pre_slice, counts, walk_b, k_b, slice_b),
        a.starts(files.len() as int, slice_a),
        b.starts(files.len() as int, slice_b),
    ensures
        plan_rows(scanned(a, counts), files) == plan_rows(scanned(b, counts), files),
        forall|j: int|
            0 <= j < scanned(a, counts).len() && j < scanned(b, counts).len() ==> (
            #[trigger] scanned(a, counts)[j]) == scanned(b, counts)[j],
{
    if slice_start(pre_slice) is FromEnd {
        law_early_stop(counts, 0, walk_a, walk_b);
        law_early_stop(counts, 0, walk_b, walk_a);
    }
    assert(slice_a == slice_b);
    law_scan_reads_slice(files, counts, a, slice_a);
    law_scan_reads_slice(files, counts, b, slice_b);
    lemma_total_rows_part(counts, a.next as int, a.next as int);
    assert forall|j: int|
        0 <= j < scanned(a, counts).len() && j < scanned(b, counts).len() implies (
    #[trigger] scanned(a, counts)[j]) == scanned(b, counts)[j] by {
        law_scan_counts_rows_before(a, counts, j);
        law_scan_counts_rows_before(b, counts, j);
    }
}

/// The row numbers of a file continue those of all files before it, also of the
/// files that the scan does not start with: they hold `left_out` rows, `moved`
/// is the row index behind them, and `r` that of the file with plan `j`.
pub proof fn law_row_numbers_continue(
    counts: Seq<usize>,
    left_out: usize,
    scan: BatchScan,
    j: int,
    row_index: Option<RowIndex>,
    moved: Option<RowIndex>,
    r: Option<RowIndex>,
)
    requires
        total_rows(counts) <= usize::MAX,
        row_index matches Some(ri) ==> ri.offset + total_rows(counts) <= IdxSize::MAX,
        scan.wf(),
        scan.n_sources == counts.len(),
        scan.next <= scan.n_sources,
        scan.current_offset == 0,
        left_out == total_rows(counts.take(scan.next as int)),
        0 <= j < scanned(scan, counts).len(),
        is_shifted(row_index, left_out, moved),
        is_shifted(moved, scanned(scan, counts)[j].cumulative_read, r),
    ensures
        can_shift(row_index, left_out),
        can_shift(moved, scanned(scan, counts)[j].cumulative_read),
        match row_index {
            Some(ri) => {
                &&& r matches Some(s)
                &&& s.name@ == ri.name@
                &&& s.offset == ri.offset + total_rows(
                    counts.take(scanned(scan, counts)[j].source as int),
                )
            },
            None => r is None,
        },
{
    let first = scan.next as int;
    lemma_total_rows_part(counts, first, first);
    law_scan_counts_rows_before(scan, counts, j);
    let source = scanned(scan, counts)[j].source as int;
    assert(counts.take(source) =~= counts.take(first) + counts.subrange(first, source));
    lemma_total_rows_concat(counts.take(first), counts.subrange(first, source));
    lemma_total_rows_part(counts, 0, source);
    assert(counts.take(source) =~= counts.subrange(0, source));
    assert(counts.skip(0) =~= counts);
    lemma_total_rows_part(counts, first, source);
    if row_index is Some {
        law_shift_twice(
            row_index,
            left_out,
            scanned(scan, counts)[j].cumulative_read,
            moved,
            r,
        );
    }
}

/// A batch starts with the next file and holds as many files as fit; there is
/// none if no file is left, or if something was read and the slice is done.
pub proof fn law_batch(scan: BatchScan)
    requires
        scan.step > 0,
    ensures
        scan.batch() is Some <==> scan.next < scan.n_sources && (scan.n_read == 0
            || scan.current_offset < scan.slice_end),
        scan.batch() matches Some((first, end)) ==> {
            &&& first == scan.next
            &&& first < end <= scan.n_sources
            &&& end - first <= scan.step
            &&& end == scan.n_sources || end - first == scan.step
        },
{
}

/// The plan for a file of a batch names that file, counts the rows of the scan
/// before it, and takes the rows of the file that lie in the slice.
pub proof fn law_planned(scan: BatchScan, counts: Seq<usize>, j: int, p: int)
    requires
        scan.wf(),
        scan.next + counts.len() <= usize::MAX,
        scan.current_offset + total_rows(counts) <= usize::MAX,
    ensures
        scan.planned(counts).len() == counts.len(),
        0 <= j < counts.len() ==> {
            let plan = scan.planned(counts)[j];
            let (first, len) = plan.slice;
            let before = scan.current_offset + total_rows(counts.take(j));
            &&& plan.source == scan.next + j
            &&& plan.cumulative_read == before
            &&& first + len <= counts[j]
            &&& 0 <= p < counts[j] ==> (first <= p < first + len <==> scan.slice_start <= before
                + p < scan.slice_end)
            &&& before + counts[j] <= scan.slice_start || scan.slice_end <= before ==> first == 0
                && len == 0
            &&& before < scan.slice_start && scan.slice_start == scan.slice_end
                && scan.slice_end < before + counts[j] ==> first == scan.slice_start - before
        },
{
    if 0 <= j < counts.len() {
        lemma_next_file_fits(counts, j);
        law_file_slice(
            scan.current_offset + total_rows(counts.take(j)),
            counts[j] as int,
            scan.slice_start as int,
            scan.slice_end as int,
            p,
        );
    }
}

/// After a batch the scan stands behind its files and has counted their rows;
/// what it was asked for stays.
pub proof fn law_advanced(scan: BatchScan, counts: Seq<usize>)
    requires
        scan.wf(),
        scan.next + counts.len() <= usize::MAX,
        scan.current_offset + total_rows(counts) <= usize::MAX,
    ensures
        ({
            let after = scan.advanced(counts);
            &&& after.next - scan.next == counts.len()
            &&& after.n_read - scan.n_read == counts.len()
            &&& after.current_offset - scan.current_offset == total_rows(counts)
            &&& after.n_sources == scan.n_sources
            &&& after.step == scan.step
            &&& after.slice_start == scan.slice_start
            &&& after.slice_end == scan.slice_end
        }),
{
    lemma_total_rows_part(counts, 0, 0);
    assert(counts.skip(0) =~= counts);
}

/// A plan reads its rows of its file, and plans are carried out one after the
/// other.
pub proof fn law_plan_rows<T>(plans: Seq<FilePlan>, plan: FilePlan, files: Seq<Seq<T>>)
    ensures
        plan_rows(Seq::empty(), files) == Seq::<T>::empty(),
        plan_rows(plans.push(plan), files) == plan_rows(plans, files)
            + files[plan.source as int].subrange(
            plan.slice.0 as int,
            plan.slice.0 + plan.slice.1,
        ),
{
    let rows = files[plan.source as int].subrange(
        plan.slice.0 as int,
        plan.slice.0 + plan.slice.1,
    );
    assert(plans.push(plan) =~= plans + seq![plan]);
    lemma_plan_rows_concat(plans, seq![plan], files);
    let one = Seq::new(
        1,
        |j: int|
            files[seq![plan][j].source as int].subrange(
                seq![plan][j].slice.0 as int,
                seq![plan][j].slice.0 + seq![plan][j].slice.1,
            ),
    );
    one.lemma_flatten_one_element();
    assert(plan_rows(seq![plan], files) =~= rows);
    assert(plan_rows(Seq::empty(), files) =~= Seq::<T>::empty());
}

/// What a scan still reads is what it plans for the next batch, and then what it
/// reads after it; without a next batch it reads nothing.
pub proof fn law_scanned(scan: BatchScan, counts: Seq<usize>)
    requires
        scan.wf(),
        scan.n_sources == counts.len(),
    ensures
        scan.batch() is None ==> scanned(scan, counts).len() == 0,
        scan.batch() matches Some((first, end)) ==> scanned(scan, counts) == scan.planned(
            counts.subrange(first, end),
        ) + scanned(scan.advanced(counts.subrange(first, end)), counts),
{
}

/// The rows asked for: all of them without a slice, and otherwise those at the
/// `len` positions from the offset on, which a negative offset counts from the
/// end, as far as there are rows at them.
pub proof fn law_requested<T>(rows: Seq<T>, pre_slice: Option<(i64, usize)>, p: int)
    ensures
        pre_slice is None ==> requested(rows, pre_slice) == rows,
        pre_slice matches Some((offset, len)) ==> {
            let got = requested(rows, pre_slice);
            let first = if offset >= 0 {
                offset as int
            } else {
                rows.len() + offset
            };
            let skipped = if first < 0 {
                -first
            } else {
                0
            };
            &&& 0 <= p < got.len() <==> 0 <= p && skipped + p < len && first + skipped + p
                < rows.len()
            &&& 0 <= p < got.len() ==> got[p] == rows[first + skipped + p]
        },
{
}

/// A slice that counts from the start needs no walk, and one that counts from the
/// end is settled by any walk for it that has seen all files or has found the one
/// in which the slice starts; a scan of that slice can then start.
pub proof fn law_translated(
    pre_slice: Option<(i64, usize)>,
    counts: Seq<usize>,
    walk: SliceWalk,
    k: int,
    n_sources: usize,
    step: usize,
    slice: ScanSlice,
)
    requires
        step > 0,
        slice.start <= slice.end,
    ensures
        slice_start(pre_slice) matches SliceStart::Ready(s) ==> translated(
            pre_slice,
            counts,
            walk,
            k,
            s,
        ),
        slice_start(pre_slice) matches SliceStart::FromEnd(start) ==> (walk.has_found(counts, k)
            && 0 <= k <= counts.len() && (k == 0 || walk.first_source > 0)
            && walk.slice_start_as_n_from_end == start.slice_start_as_n_from_end ==> translated(
            pre_slice,
            counts,
            walk,
            k,
            walk.slice_for(pre_slice.unwrap().1),
        )),
        (BatchScan {
            n_sources,
            step,
            slice_start: slice.start,
            slice_end: slice.end,
            next: slice.first_source,
            current_offset: 0,
            n_read: 0,
        }).starts(n_sources as int, slice),
{
}

} // verus!
