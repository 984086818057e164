//! Slices that count from the end of the last file.
//!
//! The files are walked from the last to the first until enough rows have been
//! seen. The slice then becomes one that counts from the start of the file in
//! which it begins, and no file before that one is read.

use crate::slice::{
    counts_of, lemma_flatten_counts, lemma_selected_is_window, lemma_total_rows_nonnegative,
    lemma_total_rows_part, lesser, selected, total_rows, window,
};
use vstd::prelude::*;

verus! {

/// A slice that counts from the start of the file `first_source`.
#[derive(Debug, Clone, Copy, PartialEq, Eq, Structural)]
pub struct ScanSlice {
    /// The first file to read.
    pub first_source: usize,
    /// The position of the first row, counted from the start of that file.
    pub start: usize,
    /// The position after the last row.
    pub end: usize,
}

/// The files seen so far on the way from the last file to the first.
#[derive(Debug, Clone, Copy, PartialEq, Eq, Structural)]
pub struct SliceWalk {
    /// How many rows before the end of the last file the slice starts.
    pub slice_start_as_n_from_end: usize,
    /// The rows in the files seen, up to and with the file in which the slice
    /// starts.
    pub cum_rows: usize,
    /// The file in which the slice starts; 0 until it is found.
    pub first_source: usize,
    /// The rows in the files seen after that one was found.
    pub first_source_row_offset: usize,
}

/// Where a slice starts to be read.
#[derive(Debug, Clone, Copy, PartialEq, Eq, Structural)]
pub enum SliceStart {
    /// The first file is known.
    Ready(ScanSlice),
    /// The rows of the files have to be counted first, from the last file on.
    FromEnd(SliceWalk),
}

/// How many files have their rows counted at a time.
pub const COUNTED_AT_A_TIME: usize = 8;

/// The files whose rows are counted next, out of the first `k`, which have not
/// been counted yet: the index of the last of them, and how many there are.
/// Files are counted from the last to the first, `size` at a time.
pub fn next_chunk(k: usize, size: usize) -> (r: Option<(usize, usize)>)
    requires
        size > 0,
    ensures
        match r {
            Some((last, count)) => k > 0 && last == k - 1 && count == lesser(
                k as int,
                size as int,
            ),
            None => k == 0,
        },
        r matches Some((_, count)) ==> count <= k && count <= size && (count == k || count
            == size),
{
    if k == 0 {
        None
    } else if k < size {
        Some((k - 1, k))
    } else {
        Some((k - 1, size))
    }
}

/// The sum of two sizes, cut off at the largest size.
pub open spec fn saturated(a: int, b: int) -> int {
    lesser(a + b, usize::MAX as int)
}

/// Where the slice `pre_slice`, an offset and a length, starts. A negative
/// offset counts from the end of the last file; without a slice all rows are
/// read.
pub open spec fn slice_start(pre_slice: Option<(i64, usize)>) -> SliceStart {
    match pre_slice {
        None => SliceStart::Ready(ScanSlice { first_source: 0, start: 0, end: usize::MAX }),
        Some((offset, len)) => if offset >= 0 {
            let start = offset as usize;
            let end = saturated(len as int, start as int) as usize;
            SliceStart::Ready(ScanSlice { first_source: 0, start, end })
        } else {
            SliceStart::FromEnd(SliceWalk::at_end((-offset) as usize))
        },
    }
}

/// Finds out where a slice starts.
pub fn begin_slice(pre_slice: Option<(i64, usize)>) -> (r: SliceStart)
    ensures
        r == slice_start(pre_slice),
        r matches SliceStart::Ready(s) ==> s.start <= s.end,
{
    match pre_slice {
        None => SliceStart::Ready(ScanSlice { first_source: 0, start: 0, end: usize::MAX }),
        Some((offset, len)) => if offset >= 0 {
            let start: usize = offset as usize;
            SliceStart::Ready(
                ScanSlice { first_source: 0, start, end: len.saturating_add(start) },
            )
        } else {
            let n: u64 = (-(offset + 1)) as u64 + 1;
            SliceStart::FromEnd(SliceWalk::new(n as usize))
        },
    }
}

impl SliceWalk {
    /// The walk before any file was seen.
    pub open spec fn at_end(slice_start_as_n_from_end: usize) -> SliceWalk {
        SliceWalk {
            slice_start_as_n_from_end,
            cum_rows: 0,
            first_source: 0,
            first_source_row_offset: 0,
        }
    }

    /// Whether the slice starts in the next file, which holds `num_rows` rows.
    pub open spec fn reaches(self, num_rows: usize) -> bool {
        self.first_source == 0 && self.cum_rows + num_rows >= self.slice_start_as_n_from_end
    }

    /// The walk after one more file, with index `path_idx` and `num_rows` rows.
    pub open spec fn seen(self, path_idx: usize, num_rows: usize) -> SliceWalk {
        if self.first_source == 0 {
            SliceWalk {
                cum_rows: (self.cum_rows + num_rows) as usize,
                first_source: if self.reaches(num_rows) {
                    path_idx
                } else {
                    0
                },
                ..self
            }
        } else {
            SliceWalk {
                first_source_row_offset: (self.first_source_row_offset + num_rows) as usize,
                ..self
            }
        }
    }

    /// The walk after the files from index `last` down, which hold `rows` rows.
    /// Without a row index, the files before the one in which the slice starts
    /// are passed over.
    pub open spec fn walked(self, last: int, rows: Seq<usize>, has_row_index: bool) -> SliceWalk
        decreases rows.len(),
    {
        if rows.len() == 0 {
            self
        } else {
            let next = self.seen(last as usize, rows.first());
            if self.reaches(rows.first()) && !has_row_index {
                next
            } else {
                next.walked(last - 1, rows.drop_first(), has_row_index)
            }
        }
    }

    /// The slice of `len` rows, counted from the start of the first file to
    /// read. If it starts before the first row of all, the rows that do not
    /// exist are taken off its length.
    pub open spec fn slice_for(self, len: usize) -> ScanSlice {
        let n = self.slice_start_as_n_from_end;
        if n > self.cum_rows {
            let missing = n - self.cum_rows;
            ScanSlice {
                first_source: self.first_source,
                start: 0,
                end: if len >= missing {
                    (len - missing) as usize
                } else {
                    0
                },
            }
        } else {
            let start = self.cum_rows - n;
            ScanSlice {
                first_source: self.first_source,
                start: start as usize,
                end: saturated(start, len as int) as usize,
            }
        }
    }

    /// Whether this walk knows where the slice starts, out of files with
    /// `counts` rows, as far as the files from index `k` on tell.
    pub open spec fn has_found(self, counts: Seq<usize>, k: int) -> bool {
        let n = self.slice_start_as_n_from_end;
        let i = self.first_source as int;
        if i == 0 {
            &&& self.cum_rows == total_rows(counts.skip(k))
            &&& k > 0 ==> total_rows(counts.skip(k)) < n
            &&& k == 0 && counts.len() > 0 ==> total_rows(counts.skip(1)) < n
        } else {
            &&& k <= i < counts.len()
            &&& total_rows(counts.skip(i + 1)) < n <= total_rows(counts.skip(i))
            &&& self.cum_rows == total_rows(counts.skip(i))
        }
    }

    /// Whether this walk has also counted the rows of every file from index `k`
    /// on.
    pub open spec fn has_seen(self, counts: Seq<usize>, k: int) -> bool {
        let i = self.first_source as int;
        &&& self.has_found(counts, k)
        &&& self.first_source_row_offset == if i == 0 {
            0
        } else {
            total_rows(counts.subrange(k, i))
        }
    }

    /// Starts a walk for a slice that starts so many rows before the end.
    pub fn new(slice_start_as_n_from_end: usize) -> (r: SliceWalk)
        ensures
            r == SliceWalk::at_end(slice_start_as_n_from_end),
    {
        SliceWalk {
            slice_start_as_n_from_end,
            cum_rows: 0,
            first_source: 0,
            first_source_row_offset: 0,
        }
    }

    /// Takes in the file before the ones seen. Returns whether the walk can
    /// stop: the slice starts in this file, and no row index needs the rows of
    /// the files before it.
    pub fn visit(&mut self, path_idx: usize, num_rows: usize, has_row_index: bool) -> (stop: bool)
        requires
            old(self).first_source == 0 ==> old(self).cum_rows + num_rows <= usize::MAX,
            old(self).first_source != 0 ==> old(self).first_source_row_offset + num_rows
                <= usize::MAX,
        ensures
            *final(self) == old(self).seen(path_idx, num_rows),
            stop == (old(self).reaches(num_rows) && !has_row_index),
    {
        if self.first_source == 0 {
            self.cum_rows = self.cum_rows + num_rows;
            if self.cum_rows >= self.slice_start_as_n_from_end {
                self.first_source = path_idx;
                return !has_row_index;
            }
        } else {
            self.first_source_row_offset = self.first_source_row_offset + num_rows;
        }
        false
    }

    /// Takes in some files at a time: file `last` and those before it, whose
    /// numbers of rows are `row_counts`. Without a row index, the files before
    /// the one in which the slice starts are passed over.
    pub fn visit_chunk(&mut self, last: usize, row_counts: &Vec<usize>, has_row_index: bool)
        requires
            row_counts.len() <= last + 1,
            old(self).cum_rows + old(self).first_source_row_offset + total_rows(row_counts@)
                <= usize::MAX,
        ensures
            *final(self) == old(self).walked(last as int, row_counts@, has_row_index),
    {
        let ghost rows = row_counts@;
        assert(rows.skip(0) =~= rows);
        let mut j: usize = 0;
        while j < row_counts.len()
            invariant
                rows == row_counts@,
                j <= rows.len() <= last + 1,
                self.cum_rows + self.first_source_row_offset + total_rows(rows.skip(j as int))
                    <= usize::MAX,
                old(self).walked(last as int, rows, has_row_index) == self.walked(
                    last - j,
                    rows.skip(j as int),
                    has_row_index,
                ),
            decreases rows.len() - j,
        {
            proof {
                assert(rows.skip(j as int).drop_first() =~= rows.skip(j + 1));
                lemma_total_rows_nonnegative(rows.skip(j + 1));
            }
            if self.visit(last - j, row_counts[j], has_row_index) {
                return;
            }
            j = j + 1;
        }
    }

    /// The slice of `len` rows that this walk was made for.
    pub fn finish(&self, len: usize) -> (r: ScanSlice)
        ensures
            r == self.slice_for(len),
            r.start <= r.end,
    {
        if self.slice_start_as_n_from_end > self.cum_rows {
            let first_file_position: usize = self.slice_start_as_n_from_end - self.cum_rows;
            ScanSlice {
                first_source: self.first_source,
                start: 0,
                end: len.saturating_sub(first_file_position),
            }
        } else {
            let start: usize = self.cum_rows - self.slice_start_as_n_from_end;
            ScanSlice { first_source: self.first_source, start, end: start.saturating_add(len) }
        }
    }
}

/// Before any file has been seen, the walk has seen the files behind the last.
pub proof fn law_walk_start(counts: Seq<usize>, n: usize)
    requires
        n > 0,
    ensures
        SliceWalk::at_end(n).has_seen(counts, counts.len() as int),
{
    assert(counts.skip(counts.len() as int) =~= Seq::<usize>::empty());
}

/// A walk that takes in file `k - 1` after the files from `k` on goes on to know
/// where the slice starts, and to have counted all rows if it had. The rows of
/// that file can be counted.
pub proof fn law_walk_step(walk: SliceWalk, counts: Seq<usize>, k: int)
    requires
        0 < k <= counts.len() <= usize::MAX,
        walk.has_found(counts, k),
        total_rows(counts) <= usize::MAX,
    ensures
        walk.first_source == 0 ==> walk.cum_rows + counts[k - 1] <= usize::MAX,
        walk.seen((k - 1) as usize, counts[k - 1]).has_found(counts, k - 1),
        walk.has_seen(counts, k) ==> {
            &&& walk.first_source_row_offset + counts[k - 1] <= usize::MAX
            &&& walk.seen((k - 1) as usize, counts[k - 1]).has_seen(counts, k - 1)
        },
{
    let i = walk.first_source as int;
    assert(counts.skip(k - 1).drop_first() =~= counts.skip(k));
    lemma_total_rows_part(counts, k - 1, k);
    if i != 0 {
        assert(counts.subrange(k - 1, i).drop_first() =~= counts.subrange(k, i));
        lemma_total_rows_part(counts, k - 1, i);
    } else if k - 1 > 0 {
        assert(counts.subrange(k - 1, k - 1) =~= Seq::<usize>::empty());
    } else {
        assert(counts.skip(1) =~= counts.skip(k));
    }
}

/// A walk may take in the files before `k` some at a time: it goes on to know
/// where the slice starts, and with a row index it counts all rows. It never
/// counts a row twice.
pub proof fn law_walk_chunk(
    walk: SliceWalk,
    counts: Seq<usize>,
    k: int,
    rows: Seq<usize>,
    has_row_index: bool,
)
    requires
        rows.len() <= k <= counts.len() <= usize::MAX,
        rows == counts.subrange(k - rows.len(), k).reverse(),
        total_rows(counts) <= usize::MAX,
        walk.has_found(counts, k),
    ensures
        ({
            let next = walk.walked(k - 1, rows, has_row_index);
            &&& next.slice_start_as_n_from_end == walk.slice_start_as_n_from_end
            &&& next.has_found(counts, k - rows.len())
            &&& has_row_index && walk.has_seen(counts, k) ==> next.has_seen(
                counts,
                k - rows.len(),
            )
            &&& walk.cum_rows + walk.first_source_row_offset + total_rows(rows) <= usize::MAX
                ==> next.cum_rows + next.first_source_row_offset <= walk.cum_rows
                + walk.first_source_row_offset + total_rows(rows)
        }),
    decreases rows.len(),
{
    if rows.len() > 0 {
        let next = walk.seen((k - 1) as usize, rows.first());
        assert(rows.first() == counts[k - 1]);
        law_walk_step(walk, counts, k);
        assert(rows.drop_first() =~= counts.subrange(k - rows.len(), k - 1).reverse());
        lemma_total_rows_nonnegative(rows.drop_first());
        law_walk_chunk(next, counts, k - 1, rows.drop_first(), has_row_index);
    }
}

/// The rows of the slice of `len` rows that starts `n` rows before the end of
/// `rows`, as far as they exist.
pub open spec fn tail_window<T>(rows: Seq<T>, n: int, len: int) -> Seq<T> {
    let first = rows.len() - n;
    window(
        rows,
        if first > 0 {
            first
        } else {
            0
        },
        if first + len > 0 {
            first + len
        } else {
            0
        },
    )
}

/// A slice that counts from the end selects the same rows, whether it is taken
/// from all rows in one list or translated by a walk and then read file by file
/// from the file that the walk has found.
pub proof fn law_tail_slice<T>(
    files: Seq<Seq<T>>,
    counts: Seq<usize>,
    walk: SliceWalk,
    len: usize,
)
    requires
        counts_of(files, counts),
        total_rows(counts) <= usize::MAX,
        walk.has_found(counts, 0),
    ensures
        ({
            let s = walk.slice_for(len);
            selected(files.skip(s.first_source as int), 0, s.start as int, s.end as int)
                == tail_window(
                files.flatten(),
                walk.slice_start_as_n_from_end as int,
                len as int,
            )
        }),
{
    let s = walk.slice_for(len);
    let i = s.first_source as int;
    let n = walk.slice_start_as_n_from_end as int;
    let before = files.take(i);
    let read = files.skip(i);
    assert(files =~= before + read);
    vstd::seq_lib::lemma_flatten_concat(before, read);
    lemma_flatten_counts(files, counts);
    lemma_flatten_counts(read, counts.skip(i));
    lemma_total_rows_part(counts, 0, i);
    lemma_total_rows_part(counts, i, i);
    lemma_selected_is_window(read, 0, s.start as int, s.end as int);
    assert(window(read.flatten(), s.start as int, s.end as int) =~= tail_window(
        files.flatten(),
        n,
        len as int,
    ));
}

/// Where the slice starts is settled as soon as the walk has found the file: a
/// walk that stops then leads to the same slice as one that goes on through all
/// files.
pub proof fn law_early_stop(counts: Seq<usize>, k: int, stopped: SliceWalk, full: SliceWalk)
    requires
        0 <= k <= counts.len(),
        stopped.slice_start_as_n_from_end == full.slice_start_as_n_from_end,
        stopped.has_found(counts, k),
        full.has_found(counts, 0),
        stopped.first_source > 0 || k == 0,
    ensures
        stopped.has_found(counts, 0),
        stopped.first_source == full.first_source,
        stopped.cum_rows == full.cum_rows,
        forall|len: usize| stopped.slice_for(len) == full.slice_for(len),
{
    let i = stopped.first_source as int;
    let j = full.first_source as int;
    if i < j {
        lemma_total_rows_part(counts, i + 1, j);
    } else if j < i {
        lemma_total_rows_part(counts, j + 1, i);
    }
}

/// With the rows of the files before the one in which the slice starts, a walk
/// through all files has counted every row.
pub proof fn law_walk_counts_all_rows(counts: Seq<usize>, walk: SliceWalk)
    requires
        walk.has_seen(counts, 0),
    ensures
        walk.first_source_row_offset == total_rows(counts.take(walk.first_source as int)),
        walk.first_source_row_offset + walk.cum_rows == total_rows(counts),
{
    let i = walk.first_source as int;
    lemma_total_rows_part(counts, 0, i);
    assert(counts.take(i) =~= counts.subrange(0, i));
    assert(counts.skip(0) =~= counts);
}

/// A slice that counts from the start begins at its offset and ends `len` rows
/// further on, or at the largest size; one that counts from the end begins as
/// many rows before it as its offset says, and no file has been seen then.
/// Without a slice nothing is left out.
pub proof fn law_slice_start(pre_slice: Option<(i64, usize)>)
    ensures
        match (pre_slice, slice_start(pre_slice)) {
            (None, SliceStart::Ready(s)) => s.first_source == 0 && s.start == 0 && s.end
                == usize::MAX,
            (Some((offset, len)), SliceStart::Ready(s)) => {
                &&& 0 <= offset
                &&& offset <= usize::MAX ==> {
                    &&& s.first_source == 0
                    &&& s.start == offset
                    &&& offset + len <= usize::MAX ==> s.end == offset + len
                    &&& offset + len > usize::MAX ==> s.end == usize::MAX
                }
            },
            (Some((offset, _)), SliceStart::FromEnd(walk)) => {
                &&& offset < 0
                &&& -offset <= usize::MAX ==> walk.slice_start_as_n_from_end == -offset
                &&& walk.cum_rows == 0
                &&& walk.first_source == 0
                &&& walk.first_source_row_offset == 0
            },
            (None, SliceStart::FromEnd(_)) => false,
        },
{
}

/// A walk counts the rows of the next file once: with the rows of the files from
/// the one on in which the slice starts, or, behind that, with those of the files
/// before it. The slice starts in the first file with which the rows counted
/// reach as far back as the slice does.
pub proof fn law_seen(walk: SliceWalk, path_idx: usize, num_rows: usize)
    requires
        walk.cum_rows + num_rows <= usize::MAX,
        walk.first_source_row_offset + num_rows <= usize::MAX,
    ensures
        ({
            let next = walk.seen(path_idx, num_rows);
            let found = walk.first_source != 0;
            let n = walk.slice_start_as_n_from_end;
            &&& next.slice_start_as_n_from_end == n
            &&& next.cum_rows + next.first_source_row_offset == walk.cum_rows
                + walk.first_source_row_offset + num_rows
            &&& found ==> next.cum_rows == walk.cum_rows && next.first_source
                == walk.first_source && !walk.reaches(num_rows)
            &&& !found ==> next.first_source_row_offset == walk.first_source_row_offset
            &&& !found && next.cum_rows < n ==> next.first_source == 0 && !walk.reaches(num_rows)
            &&& !found && next.cum_rows >= n ==> next.first_source == path_idx && walk.reaches(
                num_rows,
            )
        }),
{
}

/// Taking in files at a time is taking them in one after the other; without a row
/// index the walk ends with the file in which the slice starts.
pub proof fn law_walked(
    walk: SliceWalk,
    last: int,
    num_rows: usize,
    rows: Seq<usize>,
    has_row_index: bool,
)
    requires
        0 <= last <= usize::MAX,
    ensures
        walk.walked(last, Seq::empty(), has_row_index) == walk,
        walk.walked(last, seq![num_rows] + rows, true) == walk.seen(
            last as usize,
            num_rows,
        ).walked(last - 1, rows, true),
        walk.walked(last, seq![num_rows] + rows, false) == if walk.reaches(num_rows) {
            walk.seen(last as usize, num_rows)
        } else {
            walk.seen(last as usize, num_rows).walked(last - 1, rows, false)
        },
{
    assert((seq![num_rows] + rows).drop_first() =~= rows);
}

/// A slice of `len` rows that starts `n` rows before the end, counted from the
/// start of the file it starts in: with `cum_rows` rows from there on, it takes
/// the rows from `cum_rows - n` on, as far as they exist and can be counted.
pub proof fn law_slice_for(walk: SliceWalk, len: usize, p: int)
    requires
        0 <= p < usize::MAX,
    ensures
        ({
            let s = walk.slice_for(len);
            let first = walk.cum_rows - walk.slice_start_as_n_from_end;
            &&& s.first_source == walk.first_source
            &&& s.start <= s.end
            &&& s.start == first || (first < 0 && s.start == 0)
            &&& s.start <= p < s.end <==> first <= p < first + len
        }),
{
}

} // verus!
