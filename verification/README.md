# parquet_sma

Plans scans over many Parquet files, and keeps small materialized aggregates
(SMA): the outliers of a column that a query has read, stored in a file in a
base folder so that the next query on that column needs no scan.

- `src/` is the library, with contracts that Verus proves.
  - `slice`, `tail`, `scan`, `row_index`: which rows of which file a slice asks
    for, from either end, and the row numbers that they get.
  - `paths`, `results`, `encoding`, `sma`, `manager`: SMA files, their names,
    contents and bytes.
  - `outliers`: which rows of a column are outliers, and what is kept of them.
  - `query`, `sources`, `parquet`: the steps in which a query is answered.
- `app/` opens files, runs threads and asynchronous tasks, and does the
  floating-point arithmetic.
- `tests/` runs the library on concrete values.

The calls into `bincode` (`src/sma.rs`) and to the file system
(`src/manager.rs`) are trusted; what is assumed of them stands above each.
