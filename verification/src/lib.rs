//! Planning of Parquet scans over many files, and the small materialized
//! aggregates (SMA) that let a repeated query be answered without a scan.
pub mod encoding;
pub mod manager;
pub mod outliers;
pub mod parquet;
pub mod paths;
pub mod query;
pub mod results;
pub mod row_index;
pub mod scan;
pub mod slice;
pub mod sma;
pub mod sources;
pub mod tail;
