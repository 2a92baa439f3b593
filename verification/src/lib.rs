//! Compare the data of two PostgreSQL databases.

pub mod batching;
pub mod checksum;
pub mod chunk_strategy;
pub mod collections;
pub mod comparison_laws;
pub mod config;
pub mod config_laws;
pub mod data_diff;
pub mod delete_sync;
pub mod error;
pub mod estimation;
pub mod instant;
pub mod instant_laws;
pub mod metadata;
pub mod operation_laws;
pub mod outside;
pub mod report_laws;
pub mod row_keys;
pub mod row_laws;
pub mod run_laws;
pub mod schema_compare;
pub mod schema_laws;
pub mod single_file;
pub mod sql_gen;
pub mod sql_laws;
pub mod table_diff;
pub mod table_laws;
pub mod text;
pub mod text_laws;
pub mod types;
pub mod value_laws;

pub use checksum::{
    compare_checksums, compute_db_checksums, compute_table_checksums, ChecksumManifest, ChunkChecksum,
    TableChecksum, TableDiffSummary,
};
pub use config::{DiffConfig, TablePair};
pub use data_diff::DataDiff;
pub use error::DataDiffError;
pub use types::{
    ChunkStrategy, DiffReport, DiffStats, SchemaComparisonResult, TableAnalysis, TableDiffReport,
    TableDiffStatus,
};
