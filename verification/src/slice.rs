//! Row slices over a list of files.
//!
//! A slice is given once, for the rows of all files together. This module cuts
//! it into one slice per file.

use vstd::prelude::*;

verus! {

/// The smaller of two integers.
pub open spec fn lesser(a: int, b: int) -> int {
    if a <= b {
        a
    } else {
        b
    }
}

/// The number of rows in files that hold `counts` rows each.
pub open spec fn total_rows(counts: Seq<usize>) -> int
    decreases counts.len(),
{
    if counts.len() == 0 {
        0
    } else {
        counts.first() + total_rows(counts.drop_first())
    }
}

/// Whether `counts` are the numbers of rows in `files`.
pub open spec fn counts_of<T>(files: Seq<Seq<T>>, counts: Seq<usize>) -> bool {
    &&& files.len() == counts.len()
    &&& forall|i: int| 0 <= i < files.len() ==> (#[trigger] files[i]).len() == counts[i]
}

/// The rows of `rows` whose positions lie in `start..end`.
pub open spec fn window<T>(rows: Seq<T>, start: int, end: int) -> Seq<T>
    recommends
        0 <= start <= end,
{
    let n = rows.len() as int;
    rows.subrange(lesser(start, n), lesser(end, n))
}

/// The part of the slice `start..end` that falls into a file of `n` rows whose
/// first row has position `offset`, as an offset into the file and a length. A
/// file that the slice does not touch gets `(0, 0)`.
pub open spec fn file_slice(offset: int, n: int, start: int, end: int) -> (int, int) {
    if offset + n <= start || offset >= end {
        (0, 0)
    } else {
        let skipped = if start > offset {
            start - offset
        } else {
            0
        };
        let excess = if offset + n > end {
            offset + n - end
        } else {
            0
        };
        (skipped, n - skipped - excess)
    }
}

/// Cuts the slice `global_slice_start..global_slice_end`, whose positions count
/// the rows of all files, down to one file, and moves the row offset on to the
/// next file.
pub fn split_slice_at_file(
    current_row_offset: &mut usize,
    n_rows_this_file: usize,
    global_slice_start: usize,
    global_slice_end: usize,
) -> (r: (usize, usize))
    requires
        global_slice_start <= global_slice_end,
        *old(current_row_offset) + n_rows_this_file <= usize::MAX,
    ensures
        *final(current_row_offset) == *old(current_row_offset) + n_rows_this_file,
        (r.0 as int, r.1 as int) == file_slice(
            *old(current_row_offset) as int,
            n_rows_this_file as int,
            global_slice_start as int,
            global_slice_end as int,
        ),
{
    let offset: usize = *current_row_offset;
    let next_offset: usize = offset + n_rows_this_file;
    *current_row_offset = next_offset;
    if next_offset <= global_slice_start || offset >= global_slice_end {
        (0, 0)
    } else {
        let skipped: usize = if global_slice_start > offset {
            global_slice_start - offset
        } else {
            0
        };
        let excess: usize = if next_offset > global_slice_end {
            next_offset - global_slice_end
        } else {
            0
        };
        (skipped, n_rows_this_file - skipped - excess)
    }
}

/// The rows that a slice selects, file by file: the first of `files` starts at
/// row `offset`.
pub open spec fn selected<T>(files: Seq<Seq<T>>, offset: int, start: int, end: int) -> Seq<T>
    decreases files.len(),
{
    if files.len() == 0 {
        Seq::empty()
    } else {
        let file = files.first();
        let s = file_slice(offset, file.len() as int, start, end);
        file.subrange(s.0, s.0 + s.1) + selected(
            files.drop_first(),
            offset + file.len(),
            start,
            end,
        )
    }
}

/// The rows of several lists of files are counted by counting each list.
pub proof fn lemma_total_rows_concat(a: Seq<usize>, b: Seq<usize>)
    ensures
        total_rows(a + b) == total_rows(a) + total_rows(b),
    decreases a.len(),
{
    if a.len() == 0 {
        assert(a + b =~= b);
    } else {
        assert((a + b).drop_first() =~= a.drop_first() + b);
        lemma_total_rows_concat(a.drop_first(), b);
    }
}

/// No files hold less than no rows.
pub proof fn lemma_total_rows_nonnegative(counts: Seq<usize>)
    ensures
        total_rows(counts) >= 0,
    decreases counts.len(),
{
    if counts.len() > 0 {
        lemma_total_rows_nonnegative(counts.drop_first());
    }
}

/// A part of the files holds no more rows than all of them.
pub proof fn lemma_total_rows_part(counts: Seq<usize>, i: int, j: int)
    requires
        0 <= i <= j <= counts.len(),
    ensures
        0 <= total_rows(counts.subrange(i, j)) <= total_rows(counts.skip(i)) <= total_rows(counts),
        total_rows(counts.skip(i)) == total_rows(counts.subrange(i, j)) + total_rows(
            counts.skip(j),
        ),
{
    assert(counts =~= counts.take(i) + counts.skip(i));
    assert(counts.skip(i) =~= counts.subrange(i, j) + counts.skip(j));
    lemma_total_rows_concat(counts.take(i), counts.skip(i));
    lemma_total_rows_concat(counts.subrange(i, j), counts.skip(j));
    lemma_total_rows_nonnegative(counts.take(i));
    lemma_total_rows_nonnegative(counts.subrange(i, j));
    lemma_total_rows_nonnegative(counts.skip(j));
}

/// All files together hold as many rows as their counts add up to.
pub proof fn lemma_flatten_counts<T>(files: Seq<Seq<T>>, counts: Seq<usize>)
    requires
        counts_of(files, counts),
    ensures
        files.flatten().len() == total_rows(counts),
    decreases files.len(),
{
    if files.len() > 0 {
        lemma_flatten_counts(files.drop_first(), counts.drop_first());
    }
}

/// A slice cut into one slice per file selects the rows that it selects from
/// all rows in one list.
pub proof fn lemma_selected_is_window<T>(files: Seq<Seq<T>>, offset: int, start: int, end: int)
    requires
        0 <= offset,
        0 <= start <= end,
    ensures
        selected(files, offset, start, end) == window(
            files.flatten(),
            if start > offset {
                start - offset
            } else {
                0
            },
            if end > offset {
                end - offset
            } else {
                0
            },
        ),
    decreases files.len(),
{
    let lo = if start > offset {
        start - offset
    } else {
        0
    };
    let hi = if end > offset {
        end - offset
    } else {
        0
    };
    if files.len() == 0 {
        assert(files.flatten() =~= Seq::<T>::empty());
    } else {
        let file = files.first();
        let rest = files.drop_first();
        lemma_selected_is_window(rest, offset + file.len(), start, end);
        assert(files.flatten() == file + rest.flatten());
        assert(selected(files, offset, start, end) =~= window(files.flatten(), lo, hi));
    }
}

/// Files of which each has the number of rows that is given for it are counted
/// right, and others are not. Rows are counted file by file.
pub proof fn law_counts<T>(files: Seq<Seq<T>>, counts: Seq<usize>, n: usize)
    ensures
        counts_of(files, counts) <==> files.map_values(|f: Seq<T>| f.len() as int)
            == counts.map_values(|c: usize| c as int),
        total_rows(Seq::empty()) == 0,
        total_rows(counts.push(n)) == total_rows(counts) + n,
{
    let a = files.map_values(|f: Seq<T>| f.len() as int);
    let b = counts.map_values(|c: usize| c as int);
    if counts_of(files, counts) {
        assert(a =~= b);
    }
    if a == b {
        assert(a.len() == files.len() && b.len() == counts.len());
        assert forall|i: int| 0 <= i < files.len() implies (#[trigger] files[i]).len()
            == counts[i] by {
            assert(a[i] == b[i]);
        }
    }
    assert(counts.push(n) =~= counts + seq![n]);
    lemma_total_rows_concat(counts, seq![n]);
    assert(seq![n].drop_first() =~= Seq::<usize>::empty());
    assert(total_rows(seq![n]) == n) by {
        reveal_with_fuel(total_rows, 2);
    }
}

/// What a slice takes of a file are the rows of the file that lie in the slice:
/// row `p` of the file has position `offset + p`. A file outside of the slice is
/// left out, and an empty slice inside of a file keeps its place.
pub proof fn law_file_slice(offset: int, n: int, start: int, end: int, p: int)
    requires
        0 <= offset,
        0 <= n,
        0 <= start <= end,
    ensures
        ({
            let (first, len) = file_slice(offset, n, start, end);
            &&& 0 <= first
            &&& 0 <= len
            &&& first + len <= n
            &&& 0 <= p < n ==> (first <= p < first + len <==> start <= offset + p < end)
            &&& offset + n <= start || end <= offset ==> first == 0 && len == 0
            &&& offset < start && start == end && end < offset + n ==> first == start - offset
        }),
{
}

/// A window holds the rows at its positions, as far as there are any.
pub proof fn law_window<T>(rows: Seq<T>, start: int, end: int, p: int)
    requires
        0 <= start <= end,
    ensures
        ({
            let w = window(rows, start, end);
            &&& 0 <= p < w.len() <==> 0 <= p && start + p < end && start + p < rows.len()
            &&& 0 <= p < w.len() ==> w[p] == rows[start + p]
        }),
{
}

/// The smaller of two integers is one of them, and no larger than the other.
pub proof fn law_lesser(a: int, b: int)
    ensures
        lesser(a, b) <= a,
        lesser(a, b) <= b,
        lesser(a, b) == a || lesser(a, b) == b,
{
}

} // verus!
