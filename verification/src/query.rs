//! The steps in which a query is answered and its outliers are kept.
//!
//! Each step is a value that the next step is made from, so that they can only
//! be taken in order. What a step needs from disk, or from the rows that were
//! read, is handed to it.

use crate::encoding::{bincode_encoding, StoredView};
use crate::manager::{can_retrieve, FileWrite, SMAManager};
use crate::outliers::{
    check_quartiles, checked_quartiles, entry_of, outlier_entry, ComputeError, Dtype,
    QuantileValue,
};
use crate::paths::{base_path, in_base_folder};
use crate::results::{distinct_keys, optional_bytes, F64Bits, OutlierEntry, OutlierView};
use crate::sma::{decoded, SmaError, SmaView, SMA};
use vstd::prelude::*;

verus! {

/// How the files are read.
#[derive(Debug, Clone, Copy, PartialEq, Eq, Structural)]
pub enum ReadMode {
    /// In parallel, by threads.
    Parallel,
    /// Concurrently, by asynchronous tasks.
    Async,
}

/// An SMA file that answers a query in place of a scan.
#[derive(Debug)]
pub struct SmaLookup {
    /// The name of the file.
    pub file_name: String,
    /// The path from which it is read.
    pub path: String,
    /// The column to look for in it.
    pub column: Option<String>,
}

/// A scan to be made.
#[derive(Debug)]
pub struct ScanRequest<E> {
    /// How the files are read.
    pub mode: ReadMode,
    /// The predicate that is applied to the rows after they have been read.
    pub post_predicate: Option<E>,
}

/// How a query is answered.
#[derive(Debug)]
pub enum ReadStart<E> {
    /// From an SMA file.
    FromSma(SmaLookup),
    /// By a scan.
    Scan(ScanRequest<E>),
}

/// What is left to do after a scan.
#[derive(Debug)]
pub struct PostScan<E> {
    /// The predicate to apply to the rows.
    pub post_predicate: Option<E>,
    /// Whether the rows are then put into one chunk of memory.
    pub rechunk: bool,
    /// The column whose outliers are then kept.
    pub target: Option<SmaTarget>,
}

/// The column whose outliers are kept after a scan.
#[derive(Debug)]
pub struct SmaTarget {
    /// The column.
    pub column: String,
    /// The name of the SMA file.
    pub file_name: String,
}

/// A column whose outliers can be told.
#[derive(Debug)]
pub struct OutlierSearch {
    /// The column.
    pub target: SmaTarget,
    /// Its lower quartile.
    pub q1: F64Bits,
    /// Its upper quartile.
    pub q3: F64Bits,
}

/// An entry to be added to an SMA file.
#[derive(Debug)]
pub struct PendingEntry {
    /// The column and the file.
    pub target: SmaTarget,
    /// The entry.
    pub entry: OutlierEntry,
}

/// A new SMA file, and the entry to be added to it.
#[derive(Debug)]
pub struct NewSma {
    /// The file to write.
    pub file: FileWrite,
    /// The entry.
    pub pending: PendingEntry,
}

/// The characters of an optional string.
pub open spec fn optional_text(text: Option<String>) -> Option<Seq<char>> {
    match text {
        Some(t) => Some(t@),
        None => None,
    }
}

/// The contents of an SMA file with one more entry.
pub open spec fn with_entry(sma: SmaView, column: Seq<char>, entry: OutlierView) -> SmaView {
    SmaView { results: sma.results.insert(column, entry), ..sma }
}

/// The outliers with which a query on `column` is answered from an SMA file.
/// Without any, the answer has no rows.
pub open spec fn cached_outliers(column: Option<Seq<char>>, sma: SmaView) -> Option<Seq<u8>> {
    match column {
        Some(c) => if sma.results.contains_key(c) {
            sma.results[c].outliers
        } else {
            None
        },
        None => None,
    }
}

impl SmaLookup {
    /// The outliers with which the query is answered from the contents of the
    /// SMA file. Without any, the answer has no rows.
    pub fn answer(&self, sma: &SMA) -> (r: Option<Vec<u8>>)
        ensures
            optional_bytes(r) == cached_outliers(optional_text(self.column), sma@),
    {
        match &self.column {
            Some(column) => match sma.results.get(column.as_str()) {
                Some(entry) => match &entry.outliers {
                    Some(bytes) => {
                        let copy: Vec<u8> = bytes.clone();
                        assert(copy@ =~= bytes@);
                        Some(copy)
                    },
                    None => None,
                },
                None => None,
            },
            None => None,
        }
    }

    /// The answer from the bytes of the SMA file.
    pub fn answer_from(&self, manager: &SMAManager, buffer: &Vec<u8>) -> (r: Result<
        Option<Vec<u8>>,
        SmaError,
    >)
        ensures
            match (r, decoded(buffer@)) {
                (Ok(outliers), Some(sma)) => optional_bytes(outliers) == cached_outliers(
                    optional_text(self.column),
                    sma,
                ),
                (Err(e), None) => e == SmaError::Malformed,
                _ => false,
            },
    {
        match manager.deserialize_sma_file(buffer) {
            Ok(sma) => Ok(self.answer(&sma)),
            Err(e) => Err(e),
        }
    }
}

impl SmaTarget {
    /// Checks that the outliers of the column can be told, from its quartiles
    /// and the type of its values.
    pub fn column_found(self, q1: QuantileValue, q3: QuantileValue, dtype: Dtype) -> (r: Result<
        OutlierSearch,
        ComputeError,
    >)
        ensures
            match (r, checked_quartiles(q1, q3, dtype)) {
                (Ok(search), Ok(quartiles)) => search.target == self && (search.q1, search.q3)
                    == quartiles,
                (Err(e), Err(error)) => e == error,
                _ => false,
            },
    {
        match check_quartiles(q1, q3, dtype) {
            Ok((q1, q3)) => Ok(OutlierSearch { target: self, q1, q3 }),
            Err(e) => Err(e),
        }
    }
}

impl OutlierSearch {
    /// Takes the outliers that were found. The SMA file is made first.
    pub fn found(
        self,
        manager: &SMAManager,
        min: Option<F64Bits>,
        max: Option<F64Bits>,
        lower_threshold: F64Bits,
        upper_threshold: F64Bits,
        outliers: Vec<u8>,
    ) -> (r: NewSma)
        ensures
            r.pending.target == self.target,
            r.pending.entry@ == entry_of(
                self.target.column@,
                min,
                max,
                lower_threshold,
                upper_threshold,
                outliers@,
            ),
            r.file.path@ == base_path(self.target.file_name@),
            r.file.contents@ == bincode_encoding(
                StoredView { version: "SMA"@, predicate_count: 0, results: seq![] },
            ),
            decoded(r.file.contents@) == Some(SmaView::empty()),
    {
        let entry: OutlierEntry = outlier_entry(
            self.target.column.clone(),
            min,
            max,
            lower_threshold,
            upper_threshold,
            outliers,
        );
        let file: FileWrite = manager.create_sma_file(self.target.file_name.as_str());
        NewSma { file, pending: PendingEntry { target: self.target, entry } }
    }
}

impl NewSma {
    /// Goes on if the new SMA file could be written, and takes note of it then.
    pub fn written<E>(self, manager: &mut SMAManager, outcome: Result<(), E>) -> (r: Result<
        PendingEntry,
        E,
    >)
        ensures
            match (r, outcome) {
                (Ok(pending), Ok(_)) => {
                    &&& pending == self.pending
                    &&& final(manager)@ == old(manager)@.insert(self.pending.target.file_name@)
                },
                (Err(e), Err(error)) => e == error && final(manager)@ == old(manager)@,
                _ => false,
            },
    {
        match manager.sma_file_created(self.pending.target.file_name.as_str(), outcome) {
            Ok(_) => Ok(self.pending),
            Err(e) => Err(e),
        }
    }
}

impl PendingEntry {
    /// The path of the SMA file, from which it is read before the entry is added
    /// and to which it is written after.
    pub fn path(&self) -> (r: String)
        ensures
            r@ == base_path(self.target.file_name@),
    {
        in_base_folder(self.target.file_name.as_str())
    }

    /// The SMA file with the entry added to the contents that it has.
    pub fn updated_contents(self, sma: SMA) -> (r: SMA)
        ensures
            r@ == with_entry(sma@, self.target.column@, self.entry@),
    {
        let mut sma: SMA = sma;
        sma.results.insert(self.target.column, self.entry);
        sma
    }

    /// The SMA file with the entry added to what `buffer`, the bytes of the
    /// file, holds. Each column is written once; only the order of the columns
    /// is left open.
    pub fn updated_file(self, manager: &SMAManager, buffer: &Vec<u8>) -> (r: Result<
        FileWrite,
        SmaError,
    >)
        ensures
            match (r, decoded(buffer@)) {
                (Ok(file), Some(sma)) => {
                    &&& file.path@ == base_path(self.target.file_name@)
                    &&& exists|s: SMA|
                        s@ == with_entry(sma, self.target.column@, self.entry@)
                            && distinct_keys(s.stored().results) && file.contents@ == #[trigger] bincode_encoding(s.stored())
                    &&& decoded(file.contents@) == Some(
                        with_entry(sma, self.target.column@, self.entry@),
                    )
                },
                (Err(e), None) => e == SmaError::Malformed,
                _ => false,
            },
    {
        let sma: SMA = match manager.deserialize_sma_file(buffer) {
            Ok(sma) => sma,
            Err(e) => {
                return Err(e);
            },
        };
        let file_name: String = self.target.file_name.clone();
        let updated: SMA = self.updated_contents(sma);
        let ghost contents = updated;
        let file: FileWrite = manager.update_sma_file(file_name.as_str(), updated);
        assert(file.contents@ == bincode_encoding(contents.stored()));
        Ok(file)
    }
}

/// Outliers that were kept are what a later query on the column is answered
/// with, and the answers for other columns stay as they were.
pub proof fn law_kept_outliers_answer(
    before: SmaView,
    column: Seq<char>,
    entry: OutlierView,
    other: Option<Seq<char>>,
)
    ensures
        cached_outliers(Some(column), with_entry(before, column, entry)) == entry.outliers,
        other != Some(column) ==> cached_outliers(other, with_entry(before, column, entry))
            == cached_outliers(other, before),
{
}

/// A query on a column can be answered from an SMA file once an entry for the
/// column was added to it; from a file that does not exist, or that is new, it
/// cannot, and a file without an entry has no outliers to give.
pub proof fn law_entry_makes_retrievable(
    before: SmaView,
    column: Seq<char>,
    entry: OutlierView,
    bytes: Seq<u8>,
)
    ensures
        can_retrieve(false, column, bytes) == Ok::<bool, SmaError>(false),
        decoded(bytes) == Some(SmaView::empty()) ==> can_retrieve(true, column, bytes) == Ok::<
            bool,
            SmaError,
        >(false),
        decoded(bytes) == Some(with_entry(before, column, entry)) ==> can_retrieve(
            true,
            column,
            bytes,
        ) == Ok::<bool, SmaError>(true),
        can_retrieve(true, column, bytes) == Ok::<bool, SmaError>(false) ==> cached_outliers(
            Some(column),
            decoded(bytes).unwrap(),
        ) is None,
{
}

/// Keeping the outliers of one column twice is keeping the last ones.
pub proof fn law_last_entry_counts(
    before: SmaView,
    column: Seq<char>,
    first: OutlierView,
    last: OutlierView,
)
    ensures
        with_entry(with_entry(before, column, first), column, last) == with_entry(
            before,
            column,
            last,
        ),
{
    assert(before.results.insert(column, first).insert(column, last) =~= before.results.insert(
        column,
        last,
    ));
}

/// Adding an entry under a column maps the column to that very entry, every other
/// column to what it was mapped to before, and leaves the head as it is.
pub proof fn law_entry_is_added(
    before: SmaView,
    column: Seq<char>,
    entry: OutlierView,
    other: Seq<char>,
)
    ensures
        ({
            let after = with_entry(before, column, entry);
            &&& after.version == before.version
            &&& after.predicate_count == before.predicate_count
            &&& after.results.contains_key(column)
            &&& after.results[column].predicate == entry.predicate
            &&& after.results[column].min == entry.min
            &&& after.results[column].max == entry.max
            &&& after.results[column].lower_threshold == entry.lower_threshold
            &&& after.results[column].upper_threshold == entry.upper_threshold
            &&& after.results[column].outliers == entry.outliers
            &&& other != column ==> {
                &&& after.results.contains_key(other) <==> before.results.contains_key(other)
                &&& before.results.contains_key(other) ==> after.results[other]
                    == before.results[other]
            }
        }),
{
}

/// A query is answered with the outliers of the entry of its column, if it has a
/// column and the file holds an entry for it, and with none otherwise.
pub proof fn law_answer(column: Option<String>, sma: SmaView)
    ensures
        column is None ==> optional_text(column) is None,
        column is Some ==> optional_text(column) == Some(column.unwrap()@),
        cached_outliers(None, sma) is None,
        column matches Some(c) ==> {
            &&& sma.results.contains_key(c@) ==> cached_outliers(Some(c@), sma)
                == sma.results[c@].outliers
            &&& !sma.results.contains_key(c@) ==> cached_outliers(Some(c@), sma) is None
        },
{
}

/// A query on a column is answered with the bytes of the outliers that were found
/// of it, from any file to which what was found was added.
pub proof fn law_found_outliers_answer(
    before: SmaView,
    column: Seq<char>,
    min: Option<F64Bits>,
    max: Option<F64Bits>,
    lower_threshold: F64Bits,
    upper_threshold: F64Bits,
    outliers: Seq<u8>,
)
    ensures
        cached_outliers(
            Some(column),
            with_entry(
                before,
                column,
                entry_of(column, min, max, lower_threshold, upper_threshold, outliers),
            ),
        ) == Some(outliers),
{
}

} // verus!
