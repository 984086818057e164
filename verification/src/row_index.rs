//! The column that numbers the rows.

use vstd::prelude::*;

verus! {

/// The type of row numbers.
pub type IdxSize = u32;

/// A column of row numbers to be added to the rows that are read.
#[derive(Debug)]
pub struct RowIndex {
    /// The name of the column.
    pub name: String,
    /// The number of the first row.
    pub offset: IdxSize,
}

/// Whether the number of the row that lies `rows` rows further on fits into a
/// row number.
pub open spec fn can_shift(row_index: Option<RowIndex>, rows: usize) -> bool {
    row_index matches Some(ri) ==> ri.offset + (rows as IdxSize) <= IdxSize::MAX
}

/// Whether `r` is `row_index` moved on by `rows` rows.
pub open spec fn is_shifted(row_index: Option<RowIndex>, rows: usize, r: Option<RowIndex>) -> bool {
    match row_index {
        Some(ri) => {
            &&& r matches Some(s)
            &&& s.name@ == ri.name@
            &&& s.offset == ri.offset + (rows as IdxSize)
        },
        None => r is None,
    }
}

/// The row index of a file that is preceded by `rows` rows. The number of rows
/// is cut down to the width of a row number.
pub fn shift_row_index(row_index: &Option<RowIndex>, rows: usize) -> (r: Option<RowIndex>)
    requires
        can_shift(*row_index, rows),
    ensures
        is_shifted(*row_index, rows, r),
{
    match row_index {
        Some(ri) => {
            let shift: IdxSize = rows as IdxSize;
            Some(RowIndex { name: ri.name.clone(), offset: ri.offset + shift })
        },
        None => None,
    }
}

/// Moving a row index on twice is moving it on once by both numbers of rows,
/// as long as the row numbers have room for them.
pub proof fn law_shift_twice(
    row_index: Option<RowIndex>,
    first: usize,
    second: usize,
    once: Option<RowIndex>,
    twice: Option<RowIndex>,
)
    requires
        first + second <= IdxSize::MAX,
        can_shift(row_index, (first + second) as usize),
        is_shifted(row_index, first, once),
        is_shifted(once, second, twice),
    ensures
        can_shift(row_index, first),
        can_shift(once, second),
        is_shifted(row_index, (first + second) as usize, twice),
{
}

/// A row index is moved on by the number of rows, as far as row numbers can hold
/// it, and keeps its name; that is possible if the sum is a row number. Without a
/// row index there is none to move.
pub proof fn law_shift(row_index: Option<RowIndex>, rows: usize, r: Option<RowIndex>)
    ensures
        can_shift(row_index, rows) <==> row_index is None || row_index.unwrap().offset + (
        rows as int) % 0x1_0000_0000 <= 0xffff_ffff,
        is_shifted(row_index, rows, r) <==> (row_index is None && r is None) || (row_index is Some
            && r is Some && r.unwrap().name@ == row_index.unwrap().name@ && r.unwrap().offset
            == row_index.unwrap().offset + (rows as int) % 0x1_0000_0000),
{
    let wide: u64 = rows as u64;
    assert(wide as u32 == wide % 0x1_0000_0000) by (bit_vector);
}

} // verus!
