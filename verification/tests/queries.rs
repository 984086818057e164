use parquet_sma::manager::SMAManager;
use parquet_sma::outliers::{
    above_mask, below_mask, check_quartiles, outlier_entry, outlier_rows, ComputeError, Dtype,
    QuantileValue,
};
use parquet_sma::parquet::{
    FileInfo, FileScanOptions, MetadataSource, ParquetExec, ParquetOptions, ScanPredicate,
    ScanTypes,
};
use parquet_sma::query::{ReadMode, ReadStart, SmaLookup};
use parquet_sma::row_index::RowIndex;
use parquet_sma::scan::ParallelStrategy;
use parquet_sma::sma::{SmaError, SMA};
use parquet_sma::sources::ScanSources;
use parquet_sma::tail::{ScanSlice, SliceStart};

struct Plain;

impl ScanTypes for Plain {
    type Expr = u32;
    type SkipBatch = u8;
    type Schema = &'static str;
    type ReaderSchema = &'static str;
    type Metadata = u64;
    type HivePart = char;
    type CloudOptions = ();
}

fn paths(names: &[&str], is_cloud_url: bool) -> ScanSources {
    ScanSources::Paths { paths: names.iter().map(|n| n.to_string()).collect(), is_cloud_url }
}

fn exec(sources: ScanSources, use_sma: bool, live: Option<Vec<&str>>) -> ParquetExec<Plain> {
    ParquetExec::new(
        sources,
        FileInfo { schema: "unknown", reader_schema: None, row_estimation: (None, 0) },
        Some(vec!['a', 'b', 'c']),
        live.map(|l| ScanPredicate {
            predicate: 42,
            live_columns: l.iter().map(|c| c.to_string()).collect(),
        }),
        ParquetOptions {
            parallel: ParallelStrategy::Auto,
            low_memory: false,
            use_statistics: true,
            use_sma,
        },
        None,
        FileScanOptions {
            pre_slice: None,
            with_columns: None,
            row_index: None,
            rechunk: true,
            include_file_paths: None,
            allow_missing_columns: false,
        },
        None,
    )
}

fn row_index() -> Option<RowIndex> {
    Some(RowIndex { name: "nr".to_string(), offset: 3 })
}

#[test]
fn new_scan_knows_nothing() {
    let mut e = exec(paths(&["x.parquet"], false), true, Some(vec!["price"]));
    assert!(e.skip_batch_predicate.is_none());
    assert!(e.schema().is_none());
    assert!(!e.sma_manager.sma_file_exist("x.sma"));
    assert_eq!(e.predicate.as_ref().unwrap().predicate, 42);
}

#[test]
fn read_sets_the_options() {
    let mut e = exec(paths(&["x.parquet"], false), false, None);
    let needs_schema = e.prepare_read(
        Some(vec!["c".to_string()]),
        Some((4, 9)),
        Some(ScanPredicate { predicate: 7, live_columns: vec![] }),
        Some(1),
        row_index(),
    );
    assert!(needs_schema);
    assert_eq!(e.file_options.with_columns, Some(vec!["c".to_string()]));
    assert_eq!(e.file_options.pre_slice, Some((4, 9)));
    assert_eq!(e.file_options.row_index.as_ref().unwrap().offset, 3);
    assert_eq!(e.predicate.as_ref().unwrap().predicate, 7);
    assert_eq!(e.skip_batch_predicate, Some(1));
    assert!(e.file_options.rechunk);
    e.keep_schema("rows", "reader");
    assert!(!e.prepare_read(None, Some((usize::MAX, 1)), None, None, None));
    assert_eq!(e.file_options.pre_slice, Some((-1, 1)));
    assert_eq!(e.schema(), Some(&"rows"));
    assert_eq!(e.file_info.reader_schema, Some("reader"));
}

#[test]
fn metadata_is_read_once() {
    let mut e = exec(paths(&["x.parquet"], false), false, None);
    assert_eq!(e.metadata_source(), MetadataSource::Sync);
    assert_eq!(e.reader_metadata(0), None);
    e.keep_metadata(77);
    assert_eq!(e.metadata_source(), MetadataSource::Cached);
    assert_eq!(e.reader_metadata(0), Some(&77));
    assert_eq!(e.reader_metadata(1), None);
    let e = exec(paths(&["s3://x.parquet"], true), false, None);
    assert_eq!(e.metadata_source(), MetadataSource::Async);
    assert_eq!(ParquetExec::<Plain>::num_unfiltered_rows((1 << 32) + 9), 9);
}

#[test]
fn each_file_has_its_hive_partition() {
    let mut e = exec(paths(&["x", "y", "z"], false), false, None);
    assert_eq!(e.hive_part(1), Some(&'b'));
    assert_eq!(e.hive_part(2), Some(&'c'));
    e.hive_parts = None;
    assert_eq!(e.hive_part(1), None);
}

#[test]
fn each_file_has_its_own_path() {
    let mut e = exec(paths(&["x", "y", "z"], false), false, None);
    assert_eq!(e.include_file_path(1), None);
    e.file_options.include_file_paths = Some("from".to_string());
    let (column, path) = e.include_file_path(1).unwrap();
    assert_eq!((column.as_str(), path.unwrap().as_str()), ("from", "y"));
    assert_eq!(e.include_file_path(2).unwrap().1.unwrap(), "z");
    e.sources = ScanSources::Buffers(3);
    assert_eq!(e.include_file_path(2).unwrap().0, "from");
    assert_eq!(e.include_file_path(2).unwrap().1, None);
    assert_eq!(paths(&["x", "y"], false).path(1).unwrap(), "y");
    assert_eq!(ScanSources::Files(2).path(1), None);
}

#[test]
fn sources_are_counted() {
    assert_eq!(paths(&["x", "y"], false).len(), 2);
    assert_eq!(ScanSources::Files(3).len(), 3);
    assert_eq!(ScanSources::Buffers(4).len(), 4);
    assert!(paths(&[], false).is_paths());
    assert!(!ScanSources::Files(3).is_paths());
    assert!(!ScanSources::Buffers(3).is_cloud_url());
    assert_eq!(paths(&["x", "y"], false).first_path().unwrap(), "x");
    assert!(paths(&[], false).first_path().is_none());
    assert!(ScanSources::Files(3).first_path().is_none());
}

#[test]
fn profile_names_the_scan() {
    let e = exec(paths(&["x.parquet"], false), false, None);
    assert_eq!(e.profile_name(true, "x.parquet"), "parquet(x.parquet)");
    assert_eq!(e.profile_name(false, "x.parquet"), "");
    let e = exec(paths(&["x.parquet"], false), false, Some(vec![]));
    assert_eq!(e.profile_name(true, "x.parquet"), "parquet(x.parquet,predicate)");
    assert_eq!(e.profile_name(false, "x.parquet"), "");
}

#[test]
fn scan_hands_out_its_row_index_once() {
    let mut e = exec(paths(&["x.parquet"], false), false, None);
    e.prepare_read(None, Some((2, 3)), None, None, row_index());
    let (start, index) = e.begin_scan();
    assert_eq!(start, SliceStart::Ready(ScanSlice { first_source: 0, start: 2, end: 5 }));
    assert_eq!(index.unwrap().name, "nr");
    let (_, index) = e.begin_scan();
    assert!(index.is_none());
}

#[test]
fn query_without_sma_scans() {
    let mut e = exec(ScanSources::Buffers(2), false, Some(vec!["price"]));
    match e.start_read(true) {
        ReadStart::Scan(request) => {
            assert_eq!(request.mode, ReadMode::Parallel);
            assert_eq!(request.post_predicate, None);
            assert!(e.predicate.is_some());
            let post = e.scanned(request, 12);
            assert!(post.target.is_none());
            assert!(post.rechunk);
            assert_eq!(e.file_info.row_estimation, (Some(12), 12));
        }
        _ => panic!("no scan"),
    }
}

#[test]
fn cloud_and_forced_scans_are_asynchronous() {
    let mode = |sources: ScanSources, force: bool| match exec(sources, false, None).start_read(force)
    {
        ReadStart::Scan(request) => request.mode,
        _ => panic!("no scan"),
    };
    assert_eq!(mode(paths(&["s3://x"], true), false), ReadMode::Async);
    assert_eq!(mode(paths(&["x"], false), true), ReadMode::Async);
    assert_eq!(mode(paths(&["x"], false), false), ReadMode::Parallel);
    assert_eq!(mode(ScanSources::Files(1), true), ReadMode::Parallel);
}

#[test]
fn row_numbers_move_the_predicate_behind_the_scan() {
    let mut e = exec(paths(&["x.parquet"], false), true, Some(vec!["price"]));
    e.file_options.row_index = row_index();
    match e.continue_read(false, false) {
        ReadStart::Scan(request) => {
            assert_eq!(request.post_predicate, Some(42));
            assert!(e.predicate.is_none());
            let post = e.scanned(request, 5);
            assert_eq!(post.post_predicate, Some(42));
            assert!(post.target.is_none());
        }
        _ => panic!("no scan"),
    }
}

#[test]
fn quartiles_and_type_are_checked_in_order() {
    let f = QuantileValue::Float64(5);
    let g = QuantileValue::Float64(6);
    let o = QuantileValue::Other;
    assert_eq!(check_quartiles(f, g, Dtype::Int32), Ok((5, 6)));
    assert_eq!(check_quartiles(f, g, Dtype::Float64), Ok((5, 6)));
    assert_eq!(check_quartiles(o, o, Dtype::Other), Err(ComputeError::LowerQuartile));
    assert_eq!(check_quartiles(f, o, Dtype::Other), Err(ComputeError::UpperQuartile));
    assert_eq!(check_quartiles(f, g, Dtype::Other), Err(ComputeError::UnsupportedDtype));
    assert_eq!(ComputeError::LowerQuartile.message(), "Expected Float64 value for Q1");
    assert_eq!(ComputeError::UpperQuartile.message(), "Expected Float64 value for Q3");
    assert_eq!(ComputeError::UnsupportedDtype.message(), "Unsupported dtype for comparison");
}

#[test]
fn outliers_lie_outside_of_the_thresholds() {
    let values = vec![Some(-5), Some(0), None, Some(10), Some(11), Some(i64::MAX)];
    let lower = below_mask(&values, 0);
    let upper = above_mask(&values, 10);
    assert_eq!(
        lower,
        vec![Some(true), Some(false), None, Some(false), Some(false), Some(false)]
    );
    assert_eq!(
        upper,
        vec![Some(false), Some(false), None, Some(false), Some(true), Some(true)]
    );
    assert_eq!(outlier_rows(&lower, &upper), vec![true, false, false, false, true, true]);
    assert_eq!(
        outlier_rows(&vec![None, Some(true)], &vec![Some(true), None]),
        vec![true, true]
    );
}

#[test]
fn column_without_values_is_bounded_by_infinities() {
    let e = outlier_entry("c".to_string(), None, None, 1, 2, vec![4]);
    assert_eq!(f64::from_bits(e.min), f64::NEG_INFINITY);
    assert_eq!(f64::from_bits(e.max), f64::INFINITY);
    assert_eq!(e.predicate, "c");
    assert_eq!((e.lower_threshold, e.upper_threshold), (1, 2));
    assert_eq!(e.outliers, Some(vec![4]));
    let e = outlier_entry("c".to_string(), Some(7), Some(8), 1, 2, vec![]);
    assert_eq!((e.min, e.max), (7, 8));
}

#[test]
fn kept_outliers_answer_the_next_query() {
    let mut e = exec(paths(&["x.parquet"], false), true, Some(vec!["price", "size"]));
    let request = match e.start_read(false) {
        ReadStart::Scan(request) => request,
        _ => panic!("no scan"),
    };
    let target = e.scanned(request, 100).target.unwrap();
    assert_eq!(target.column, "price");
    assert_eq!(target.file_name, "x.sma");
    let q = QuantileValue::Float64(1);
    let search = target.column_found(q, q, Dtype::Int64).unwrap();
    assert_eq!((search.q1, search.q3), (1, 1));
    let new = search.found(&e.sma_manager, Some(1), Some(2), 3, 4, vec![5, 6]);
    assert_eq!(new.file.path, "/Users/u.oezdemir/Desktop/thesis/data/x.sma");
    let created = new.file.contents.clone();
    let written: Result<(), ()> = Ok(());
    let pending = new.written(&mut e.sma_manager, written).unwrap();
    assert_eq!(pending.path(), "/Users/u.oezdemir/Desktop/thesis/data/x.sma");
    let file = pending.updated_file(&e.sma_manager, &created).unwrap();
    assert_eq!(file.path, "/Users/u.oezdemir/Desktop/thesis/data/x.sma");

    let lookup = match e.start_read(false) {
        ReadStart::FromSma(lookup) => lookup,
        _ => panic!("a scan"),
    };
    assert_eq!(lookup.file_name, "x.sma");
    assert_eq!(lookup.path, file.path);
    assert_eq!(e.sma_manager.can_retrieve_from_sma("x.sma", "price", &created), Ok(false));
    assert_eq!(e.sma_manager.can_retrieve_from_sma("x.sma", "price", &file.contents), Ok(true));
    assert_eq!(lookup.column.as_ref().unwrap(), "price");
    assert_eq!(lookup.answer_from(&e.sma_manager, &file.contents), Ok(Some(vec![5, 6])));
    let other = SmaLookup {
        file_name: "x.sma".to_string(),
        path: file.path.clone(),
        column: Some("size".to_string()),
    };
    assert_eq!(other.answer_from(&e.sma_manager, &file.contents), Ok(None));
    let none = SmaLookup {
        file_name: "x.sma".to_string(),
        path: file.path.clone(),
        column: None,
    };
    assert_eq!(none.answer(&SMA::decode(&file.contents).unwrap()), None);
    assert_eq!(none.answer_from(&e.sma_manager, &vec![1]), Err(SmaError::Malformed));
}

#[test]
fn file_that_could_not_be_written_ends_the_query() {
    let mut e = exec(paths(&["x.parquet"], false), true, Some(vec!["price"]));
    let target = e.sma_target().unwrap();
    let q = QuantileValue::Float64(1);
    let search = target.column_found(q, q, Dtype::Float32).unwrap();
    let new = search.found(&e.sma_manager, None, None, 3, 4, vec![]);
    assert!(matches!(new.written(&mut e.sma_manager, Err("full")), Err("full")));
    assert!(!e.sma_manager.sma_file_exist("x.sma"));
}

#[test]
fn file_that_is_no_sma_file_cannot_be_updated() {
    let e = exec(paths(&["x.parquet"], false), true, Some(vec!["price"]));
    let target = e.sma_target().unwrap();
    let q = QuantileValue::Float64(1);
    let mut manager = SMAManager::new();
    let ok: Result<(), ()> = Ok(());
    let pending = target
        .column_found(q, q, Dtype::Int32)
        .unwrap()
        .found(&manager, None, None, 3, 4, vec![])
        .written(&mut manager, ok)
        .unwrap();
    assert!(matches!(pending.updated_file(&manager, &vec![]), Err(SmaError::Malformed)));
}

#[test]
fn column_that_cannot_be_compared_is_refused() {
    let e = exec(paths(&["x.parquet"], false), true, Some(vec!["price"]));
    let q = QuantileValue::Float64(1);
    let r = e.sma_target().unwrap().column_found(q, q, Dtype::Other);
    assert!(matches!(r, Err(ComputeError::UnsupportedDtype)));
}

#[test]
fn query_without_a_column_keeps_nothing() {
    let e = exec(paths(&["x.parquet"], false), true, None);
    assert!(e.sma_target().is_none());
    let e = exec(paths(&["x.parquet"], false), true, Some(vec![]));
    assert!(e.sma_target().is_none());
}
