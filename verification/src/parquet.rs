//! The scan of Parquet files as one step of a query.
//!
//! [`ParquetExec`] holds what a scan is asked for and decides what is done next.
//! Reading files, decoding them and evaluating predicates is done around it.

use crate::manager::SMAManager;
use crate::paths::{base_path, in_base_folder, replaced, sma_file_name};
use crate::query::{
    cached_outliers, optional_text, with_entry, PostScan, ReadMode, ReadStart, ScanRequest,
    SmaLookup, SmaTarget,
};
use crate::results::OutlierView;
use crate::row_index::{IdxSize, RowIndex};
use crate::scan::{law_requested, requested, ParallelStrategy};
use crate::sma::{decoded, SmaView};
use crate::sources::ScanSources;
use crate::tail::{begin_slice, slice_start, SliceStart};
use vstd::prelude::*;
use vstd::string::StringExecFns;

verus! {

/// The types of the values that a scan only hands on.
pub trait ScanTypes {
    /// A predicate that can be evaluated.
    type Expr;

    /// A predicate on the statistics of row groups.
    type SkipBatch;

    /// The schema of the rows.
    type Schema;

    /// The schema that the reader works with.
    type ReaderSchema;

    /// The metadata of a file.
    type Metadata;

    /// The values of the hive partition of a file.
    type HivePart;

    /// How cloud storage is reached.
    type CloudOptions;
}

/// What is known of the files before they are read.
#[derive(Debug)]
pub struct FileInfo<S, R> {
    /// The schema of the rows.
    pub schema: S,
    /// The schema of the reader, once it is known.
    pub reader_schema: Option<R>,
    /// The number of rows, if it is known, and an estimate of it.
    pub row_estimation: (Option<usize>, usize),
}

/// A predicate on the rows.
#[derive(Debug)]
pub struct ScanPredicate<E> {
    /// The predicate.
    pub predicate: E,
    /// The columns that it reads.
    pub live_columns: Vec<String>,
}

/// How Parquet files are read.
#[derive(Debug, Clone, Copy)]
pub struct ParquetOptions {
    /// How the work is spread over threads.
    pub parallel: ParallelStrategy,
    /// Whether memory is saved at the cost of time.
    pub low_memory: bool,
    /// Whether the statistics of row groups are used.
    pub use_statistics: bool,
    /// Whether SMA files are used.
    pub use_sma: bool,
}

/// What is read of the files.
#[derive(Debug)]
pub struct FileScanOptions {
    /// The slice of the rows: an offset, from the end if it is negative, and a
    /// length.
    pub pre_slice: Option<(i64, usize)>,
    /// The columns to read.
    pub with_columns: Option<Vec<String>>,
    /// The column of row numbers to add.
    pub row_index: Option<RowIndex>,
    /// Whether the rows are put into one chunk of memory.
    pub rechunk: bool,
    /// The column of file paths to add.
    pub include_file_paths: Option<String>,
    /// Whether a file may lack columns.
    pub allow_missing_columns: bool,
}

/// A scan of Parquet files.
pub struct ParquetExec<T: ScanTypes> {
    pub sources: ScanSources,
    pub file_info: FileInfo<T::Schema, T::ReaderSchema>,
    pub hive_parts: Option<Vec<T::HivePart>>,
    pub predicate: Option<ScanPredicate<T::Expr>>,
    pub skip_batch_predicate: Option<T::SkipBatch>,
    pub options: ParquetOptions,
    pub cloud_options: Option<T::CloudOptions>,
    pub file_options: FileScanOptions,
    pub metadata: Option<T::Metadata>,
    pub sma_manager: SMAManager,
}

/// Where the metadata of the first file is taken from.
#[derive(Debug, Clone, Copy, PartialEq, Eq, Structural)]
pub enum MetadataSource {
    /// It has been read before.
    Cached,
    /// It is read from cloud storage.
    Async,
    /// It is read from the first file.
    Sync,
}

/// The first column that a predicate reads.
pub open spec fn first_column<E>(predicate: Option<ScanPredicate<E>>) -> Option<Seq<char>> {
    match predicate {
        Some(p) => if p.live_columns@.len() > 0 {
            Some(p.live_columns@[0]@)
        } else {
            None
        },
        None => None,
    }
}

/// The name of the SMA file that belongs to the first file.
pub open spec fn sma_name(sources: ScanSources) -> Seq<char> {
    replaced(sources.first().unwrap(), ".parquet"@, ".sma"@)
}

/// A slice whose offset counts from the start, as the offset and the length of
/// a slice that may count from either end.
pub open spec fn signed_slice(slice: Option<(usize, usize)>) -> Option<(i64, usize)> {
    match slice {
        Some((offset, len)) => Some((offset as i64, len)),
        None => None,
    }
}

/// The name under which the time of a scan is recorded.
pub open spec fn profile_text(
    has_node_timer: bool,
    source_id: Seq<char>,
    has_predicate: bool,
) -> Seq<char> {
    if !has_node_timer {
        Seq::empty()
    } else if has_predicate {
        "parquet("@ + source_id + ",predicate)"@
    } else {
        "parquet("@ + source_id + ")"@
    }
}

/// Whether `start` is how a query is answered, from a scan as it was before.
/// `sma_known` says whether the SMA file exists.
pub open spec fn answers<T: ScanTypes>(
    exec: ParquetExec<T>,
    sma_known: bool,
    force_async: bool,
    start: ReadStart<T::Expr>,
) -> bool {
    if exec.options.use_sma && sma_known {
        &&& start matches ReadStart::FromSma(lookup)
        &&& lookup.file_name@ == sma_name(exec.sources)
        &&& lookup.path@ == base_path(sma_name(exec.sources))
        &&& optional_text(lookup.column) == first_column(exec.predicate)
    } else {
        &&& start matches ReadStart::Scan(request)
        &&& request.mode == if exec.sources.on_cloud() || (exec.sources is Paths && force_async) {
            ReadMode::Async
        } else {
            ReadMode::Parallel
        }
        &&& request.post_predicate == match (exec.file_options.row_index, exec.predicate) {
            (Some(_), Some(p)) => Some(p.predicate),
            _ => None,
        }
    }
}

/// The predicate that is left to the readers once a query has been started: a
/// scan that adds row numbers applies it afterwards instead.
pub open spec fn remaining_predicate<T: ScanTypes>(
    exec: ParquetExec<T>,
    sma_known: bool,
) -> Option<ScanPredicate<T::Expr>> {
    if (exec.options.use_sma && sma_known) || exec.file_options.row_index is None {
        exec.predicate
    } else {
        None
    }
}

/// The column whose outliers are kept after a scan.
pub open spec fn target_column<E>(use_sma: bool, predicate: Option<ScanPredicate<E>>) -> Option<
    Seq<char>,
> {
    if use_sma {
        first_column(predicate)
    } else {
        None
    }
}

/// Whether `target` is the column whose outliers `exec` keeps after a scan, and
/// the file to keep them in.
pub open spec fn is_target<T: ScanTypes>(exec: ParquetExec<T>, target: Option<SmaTarget>) -> bool {
    match target {
        Some(t) => {
            &&& target_column(exec.options.use_sma, exec.predicate) == Some(t.column@)
            &&& t.file_name@ == sma_name(exec.sources)
        },
        None => target_column(exec.options.use_sma, exec.predicate) is None,
    }
}

/// The first column that a predicate reads.
fn first_live_column<E>(predicate: &Option<ScanPredicate<E>>) -> (r: Option<String>)
    ensures
        optional_text(r) == first_column(*predicate),
{
    match predicate {
        Some(p) => if p.live_columns.len() > 0 {
            Some(p.live_columns[0].clone())
        } else {
            None
        },
        None => None,
    }
}

impl<T: ScanTypes> ParquetExec<T> {
    /// Whether the name of the SMA file can be told, if SMA files are used.
    pub open spec fn can_name_sma(self) -> bool {
        self.options.use_sma ==> self.sources.first() is Some
    }

    /// A scan that knows of no SMA file.
    #[allow(clippy::too_many_arguments)]
    pub fn new(
        sources: ScanSources,
        file_info: FileInfo<T::Schema, T::ReaderSchema>,
        hive_parts: Option<Vec<T::HivePart>>,
        predicate: Option<ScanPredicate<T::Expr>>,
        options: ParquetOptions,
        cloud_options: Option<T::CloudOptions>,
        file_options: FileScanOptions,
        metadata: Option<T::Metadata>,
    ) -> (r: ParquetExec<T>)
        ensures
            r.sources == sources,
            r.file_info == file_info,
            r.hive_parts == hive_parts,
            r.predicate == predicate,
            r.skip_batch_predicate is None,
            r.options == options,
            r.cloud_options == cloud_options,
            r.file_options == file_options,
            r.metadata == metadata,
            r.sma_manager@ == Set::<Seq<char>>::empty(),
    {
        ParquetExec {
            sources,
            file_info,
            hive_parts,
            predicate,
            skip_batch_predicate: None,
            options,
            cloud_options,
            file_options,
            metadata,
            sma_manager: SMAManager::new(),
        }
    }

    /// Sets what is read. Returns whether the schema has to be found out before
    /// the files can be read.
    pub fn prepare_read(
        &mut self,
        with_columns: Option<Vec<String>>,
        slice: Option<(usize, usize)>,
        predicate: Option<ScanPredicate<T::Expr>>,
        skip_batch_predicate: Option<T::SkipBatch>,
        row_index: Option<RowIndex>,
    ) -> (r: bool)
        ensures
            r == (old(self).file_info.reader_schema is None),
            *final(self) == (ParquetExec {
                predicate,
                skip_batch_predicate,
                file_options: FileScanOptions {
                    with_columns,
                    pre_slice: signed_slice(slice),
                    row_index,
                    ..old(self).file_options
                },
                ..*old(self)
            }),
    {
        self.file_options.with_columns = with_columns;
        self.file_options.pre_slice = match slice {
            Some((offset, len)) => Some((offset as i64, len)),
            None => None,
        };
        self.predicate = predicate;
        self.skip_batch_predicate = skip_batch_predicate;
        self.file_options.row_index = row_index;
        self.file_info.reader_schema.is_none()
    }

    /// The schema of the rows, if that of the reader is known too.
    pub fn schema(&self) -> (r: Option<&T::Schema>)
        ensures
            match r {
                Some(schema) => self.file_info.reader_schema is Some && *schema
                    == self.file_info.schema,
                None => self.file_info.reader_schema is None,
            },
    {
        if self.file_info.reader_schema.is_some() {
            Some(&self.file_info.schema)
        } else {
            None
        }
    }

    /// Keeps the schemas that the metadata has shown.
    pub fn keep_schema(&mut self, schema: T::Schema, reader_schema: T::ReaderSchema)
        ensures
            *final(self) == (ParquetExec {
                file_info: FileInfo {
                    schema,
                    reader_schema: Some(reader_schema),
                    ..old(self).file_info
                },
                ..*old(self)
            }),
    {
        self.file_info.schema = schema;
        self.file_info.reader_schema = Some(reader_schema);
    }

    /// Where the metadata of the first file is taken from.
    pub fn metadata_source(&self) -> (r: MetadataSource)
        ensures
            r == if self.metadata is Some {
                MetadataSource::Cached
            } else if self.sources.on_cloud() {
                MetadataSource::Async
            } else {
                MetadataSource::Sync
            },
    {
        if self.metadata.is_some() {
            MetadataSource::Cached
        } else if self.sources.is_cloud_url() {
            MetadataSource::Async
        } else {
            MetadataSource::Sync
        }
    }

    /// Keeps the metadata of the first file.
    pub fn keep_metadata(&mut self, metadata: T::Metadata)
        ensures
            *final(self) == (ParquetExec { metadata: Some(metadata), ..*old(self) }),
    {
        self.metadata = Some(metadata);
    }

    /// The metadata that the reader of a file is given: what was kept is that of
    /// the first file.
    pub fn reader_metadata(&self, source: usize) -> (r: Option<&T::Metadata>)
        ensures
            match r {
                Some(metadata) => source == 0 && self.metadata == Some(*metadata),
                None => source != 0 || self.metadata is None,
            },
    {
        if source == 0 {
            self.metadata.as_ref()
        } else {
            None
        }
    }

    /// The hive partition of a file.
    pub fn hive_part(&self, source: usize) -> (r: Option<&T::HivePart>)
        requires
            self.hive_parts matches Some(parts) ==> source < parts@.len(),
        ensures
            match r {
                Some(part) => self.hive_parts matches Some(parts) && *part
                    == parts@[source as int],
                None => self.hive_parts is None,
            },
    {
        match &self.hive_parts {
            Some(parts) => Some(&parts[source]),
            None => None,
        }
    }

    /// The column of file paths, and the path of a file that stands in it for
    /// the rows of that file. A file that is not given by a path is named by its
    /// reader.
    pub fn include_file_path(&self, source: usize) -> (r: Option<(&String, Option<&String>)>)
        requires
            source < self.sources.count(),
        ensures
            match r {
                Some((column, path)) => {
                    &&& optional_text(self.file_options.include_file_paths) == Some(column@)
                    &&& match path {
                        Some(p) => self.sources.path_of(source as int) == Some(p@),
                        None => self.sources.path_of(source as int) is None,
                    }
                },
                None => self.file_options.include_file_paths is None,
            },
    {
        match &self.file_options.include_file_paths {
            Some(column) => Some((column, self.sources.path(source))),
            None => None,
        }
    }

    /// The number of rows in the metadata, cut down to the width of a row
    /// number.
    pub fn num_unfiltered_rows(num_rows: usize) -> (r: IdxSize)
        ensures
            r == num_rows as IdxSize,
            num_rows <= IdxSize::MAX ==> r == num_rows,
    {
        num_rows as IdxSize
    }

    /// The name under which the time of the scan is recorded.
    pub fn profile_name(&self, has_node_timer: bool, source_id: &str) -> (r: String)
        ensures
            r@ == profile_text(has_node_timer, source_id@, self.predicate is Some),
    {
        if !has_node_timer {
            return String::new();
        }
        let mut name: String = "parquet(".to_owned();
        name.append(source_id);
        if self.predicate.is_some() {
            name.append(",predicate)");
        } else {
            name.append(")");
        }
        name
    }

    /// Starts to answer a query, given whether the SMA file exists.
    pub fn continue_read(&mut self, sma_known: bool, force_async: bool) -> (r: ReadStart<T::Expr>)
        requires
            old(self).can_name_sma(),
        ensures
            answers(*old(self), sma_known, force_async, r),
            *final(self) == (ParquetExec {
                predicate: remaining_predicate(*old(self), sma_known),
                ..*old(self)
            }),
    {
        if self.options.use_sma && sma_known {
            let file_name: String = match self.sources.first_path() {
                Some(path) => sma_file_name(path.as_str()),
                None => vstd::pervasive::unreached(),
            };
            let path: String = in_base_folder(file_name.as_str());
            let column: Option<String> = first_live_column(&self.predicate);
            return ReadStart::FromSma(SmaLookup { file_name, path, column });
        }
        let post_predicate: Option<T::Expr> = if self.file_options.row_index.is_some() {
            match self.predicate.take() {
                Some(p) => Some(p.predicate),
                None => None,
            }
        } else {
            None
        };
        let mode: ReadMode = if self.sources.is_cloud_url() || (self.sources.is_paths()
            && force_async) {
            ReadMode::Async
        } else {
            ReadMode::Parallel
        };
        ReadStart::Scan(ScanRequest { mode, post_predicate })
    }

    /// Starts to answer a query: from the SMA file of the first file, if SMA
    /// files are used and it exists, and by a scan otherwise.
    pub fn start_read(&mut self, force_async: bool) -> (r: ReadStart<T::Expr>)
        requires
            old(self).can_name_sma(),
        ensures
            ({
                let use_sma = old(self).options.use_sma;
                let name = sma_name(old(self).sources);
                let known = use_sma && final(self).sma_manager@.contains(name);
                &&& answers(*old(self), known, force_async, r)
                &&& *final(self) == (ParquetExec {
                    predicate: remaining_predicate(*old(self), known),
                    sma_manager: final(self).sma_manager,
                    ..*old(self)
                })
                &&& use_sma && old(self).sma_manager@.contains(name) ==> known
                &&& final(self).sma_manager@ == if known {
                    old(self).sma_manager@.insert(name)
                } else {
                    old(self).sma_manager@
                }
            }),
    {
        let mut known: bool = false;
        if self.options.use_sma {
            let name: String = match self.sources.first_path() {
                Some(path) => sma_file_name(path.as_str()),
                None => vstd::pervasive::unreached(),
            };
            known = self.sma_manager.sma_file_exist(name.as_str());
        }
        self.continue_read(known, force_async)
    }

    /// Starts a scan: hands out where its slice starts and the row index, which
    /// is not used again.
    pub fn begin_scan(&mut self) -> (r: (SliceStart, Option<RowIndex>))
        ensures
            r.0 == slice_start(old(self).file_options.pre_slice),
            r.0 matches SliceStart::Ready(s) ==> s.start <= s.end,
            r.1 == old(self).file_options.row_index,
            *final(self) == (ParquetExec {
                file_options: FileScanOptions { row_index: None, ..old(self).file_options },
                ..*old(self)
            }),
    {
        let row_index: Option<RowIndex> = self.file_options.row_index.take();
        (begin_slice(self.file_options.pre_slice), row_index)
    }

    /// Takes the number of rows that a scan has read, and hands out what is left
    /// to do.
    pub fn scanned(&mut self, request: ScanRequest<T::Expr>, num_unfiltered_rows: usize) -> (r:
        PostScan<T::Expr>)
        requires
            old(self).can_name_sma(),
        ensures
            *final(self) == (ParquetExec {
                file_info: FileInfo {
                    row_estimation: (Some(num_unfiltered_rows), num_unfiltered_rows),
                    ..old(self).file_info
                },
                ..*old(self)
            }),
            r.post_predicate == request.post_predicate,
            r.rechunk == old(self).file_options.rechunk,
            is_target(*old(self), r.target),
    {
        self.file_info.row_estimation = (Some(num_unfiltered_rows), num_unfiltered_rows);
        PostScan {
            post_predicate: request.post_predicate,
            rechunk: self.file_options.rechunk,
            target: self.sma_target(),
        }
    }

    /// The column whose outliers are kept after a scan, and the file to keep
    /// them in.
    pub fn sma_target(&self) -> (r: Option<SmaTarget>)
        requires
            self.can_name_sma(),
        ensures
            is_target(*self, r),
    {
        if !self.options.use_sma {
            return None;
        }
        let file_name: String = match self.sources.first_path() {
            Some(path) => sma_file_name(path.as_str()),
            None => vstd::pervasive::unreached(),
        };
        match first_live_column(&self.predicate) {
            Some(column) => Some(SmaTarget { column, file_name }),
            None => None,
        }
    }
}

/// A scan that adds row numbers keeps no outliers: its predicate is applied
/// after the rows have been numbered, and none is left to name a column.
pub proof fn law_row_numbers_keep_no_outliers<T: ScanTypes>(
    exec: ParquetExec<T>,
    sma_known: bool,
)
    requires
        exec.file_options.row_index is Some,
        !(exec.options.use_sma && sma_known),
    ensures
        target_column(exec.options.use_sma, remaining_predicate(exec, sma_known)) is None,
{
}

/// A scan applies its predicate exactly once: the readers do, or, if row numbers
/// are added, it is applied to the rows that they have read.
pub proof fn law_predicate_is_applied_once<T: ScanTypes>(
    exec: ParquetExec<T>,
    sma_known: bool,
    force_async: bool,
    start: ReadStart<T::Expr>,
)
    requires
        answers(exec, sma_known, force_async, start),
        start is Scan,
    ensures
        ({
            let after = start->Scan_0.post_predicate;
            let readers = remaining_predicate(exec, sma_known);
            match exec.predicate {
                Some(p) => if exec.file_options.row_index is Some {
                    after == Some(p.predicate) && readers is None
                } else {
                    after is None && readers == Some(p)
                },
                None => after is None && readers is None,
            }
        }),
{
}

/// A query that has kept the outliers of a column answers the next one on it:
/// once the SMA file is known, no scan is made; the file is read where it was
/// written; and from what was written, the answer is the outliers that were kept.
pub proof fn law_kept_outliers_replace_scan<T: ScanTypes>(
    exec: ParquetExec<T>,
    target: SmaTarget,
    before: SmaView,
    entry: OutlierView,
    bytes: Seq<u8>,
    force_async: bool,
    next: ReadStart<T::Expr>,
)
    requires
        is_target(exec, Some(target)),
        decoded(bytes) == Some(with_entry(before, target.column@, entry)),
        answers(exec, true, force_async, next),
    ensures
        next is FromSma,
        next->FromSma_0.file_name@ == target.file_name@,
        next->FromSma_0.path@ == base_path(target.file_name@),
        cached_outliers(optional_text(next->FromSma_0.column), decoded(bytes).unwrap())
            == entry.outliers,
        remaining_predicate(exec, true) == exec.predicate,
{
}

/// A slice that is read has the offset and the length that were asked for, as
/// integers: the rows asked for are those at the `len` positions from `offset`
/// on. An offset too large for a signed one counts from the end instead.
pub proof fn law_slice_is_taken_over<R>(
    slice: Option<(usize, usize)>,
    rows: Seq<R>,
    p: int,
)
    ensures
        slice is None <==> signed_slice(slice) is None,
        slice matches Some((offset, len)) ==> {
            &&& signed_slice(slice) is Some
            &&& signed_slice(slice).unwrap().1 == len
            &&& offset <= i64::MAX ==> signed_slice(slice).unwrap().0 == offset
            &&& offset > i64::MAX ==> signed_slice(slice).unwrap().0 == offset
                - 0x1_0000_0000_0000_0000
            &&& offset <= i64::MAX ==> {
                let got = requested(rows, signed_slice(slice));
                &&& 0 <= p < got.len() <==> 0 <= p < len && offset + p < rows.len()
                &&& 0 <= p < got.len() ==> got[p] == rows[offset + p]
            }
        },
{
    law_requested(rows, signed_slice(slice), p);
    if slice is Some {
        let wide: u64 = slice.unwrap().0 as u64;
        assert(wide > 0x7fff_ffff_ffff_ffff ==> wide as i64 == wide - 0x1_0000_0000_0000_0000)
            by (bit_vector);
        assert(wide <= 0x7fff_ffff_ffff_ffff ==> wide as i64 == wide) by (bit_vector);
    }
}

/// The column that a query is about is the first that its predicate reads, and
/// the SMA file is named after the first file.
pub proof fn law_names<T: ScanTypes>(exec: ParquetExec<T>, column: Seq<char>)
    ensures
        first_column(exec.predicate) == Some(column) <==> exec.predicate is Some
            && exec.predicate.unwrap().live_columns@.len() > 0
            && exec.predicate.unwrap().live_columns@[0]@ == column,
        exec.sources.first() matches Some(path) ==> sma_name(exec.sources) == replaced(
            path,
            ".parquet"@,
            ".sma"@,
        ),
        exec.can_name_sma() <==> !exec.options.use_sma || exec.sources.first() is Some,
{
}

/// A query is answered from the SMA file if SMA files are used and it is known,
/// and then reads it in the base folder and looks for its column. Otherwise the
/// files are scanned, asynchronously if they lie in cloud storage or if paths are
/// to be read so, and a predicate is applied afterwards only if rows are
/// numbered.
pub proof fn law_answers<T: ScanTypes>(
    exec: ParquetExec<T>,
    sma_known: bool,
    force_async: bool,
    start: ReadStart<T::Expr>,
)
    requires
        answers(exec, sma_known, force_async, start),
    ensures
        start is FromSma <==> exec.options.use_sma && sma_known,
        start matches ReadStart::FromSma(lookup) ==> {
            &&& lookup.file_name@ == sma_name(exec.sources)
            &&& lookup.path@ == base_path(lookup.file_name@)
            &&& lookup.column is None <==> first_column(exec.predicate) is None
            &&& lookup.column is Some ==> first_column(exec.predicate) == Some(
                lookup.column.unwrap()@,
            )
            &&& remaining_predicate(exec, sma_known) == exec.predicate
        },
        start matches ReadStart::Scan(request) ==> {
            &&& request.mode == ReadMode::Async <==> exec.sources.on_cloud() || (
            exec.sources is Paths && force_async)
            &&& request.post_predicate is Some <==> exec.file_options.row_index is Some
                && exec.predicate is Some
            &&& request.post_predicate is Some ==> request.post_predicate.unwrap()
                == exec.predicate.unwrap().predicate
            &&& exec.file_options.row_index is None ==> remaining_predicate(exec, sma_known)
                == exec.predicate
            &&& exec.file_options.row_index is Some ==> remaining_predicate(
                exec,
                sma_known,
            ) is None
        },
{
}

/// Outliers are kept after a scan if and only if SMA files are used and the
/// predicate that the readers were given reads a column: of the first such
/// column, in the SMA file named after the first file.
pub proof fn law_target<T: ScanTypes>(exec: ParquetExec<T>, target: Option<SmaTarget>)
    requires
        is_target(exec, target),
    ensures
        target is Some <==> exec.options.use_sma && exec.predicate is Some
            && exec.predicate.unwrap().live_columns@.len() > 0,
        target matches Some(t) ==> {
            &&& t.column@ == exec.predicate.unwrap().live_columns@[0]@
            &&& t.file_name@ == sma_name(exec.sources)
        },
{
}

/// The name under which the time of a scan is recorded says what was scanned and
/// whether there was a predicate; without a timer it is empty.
pub proof fn law_profile_text(source_id: Seq<char>, has_predicate: bool)
    ensures
        profile_text(false, source_id, has_predicate).len() == 0,
        profile_text(true, source_id, false) == "parquet("@ + source_id + ")"@,
        profile_text(true, source_id, true) == "parquet("@ + source_id + ","@ + "predicate"@
            + ")"@,
{
    reveal_strlit(",predicate)");
    reveal_strlit(",");
    reveal_strlit("predicate");
    reveal_strlit(")");
    assert(",predicate)"@ =~= ","@ + "predicate"@ + ")"@);
    assert(profile_text(true, source_id, true) =~= "parquet("@ + source_id + ","@ + "predicate"@
        + ")"@);
}

} // verus!
