//! What can go wrong.

use vstd::prelude::*;

verus! {

/// An error of a data diff. What another library reported is held as its message.
#[derive(Clone, Debug)]
pub enum DataDiffError {
    Postgres(String),
    Io(String),
    Pool(String),
    NoPrimaryKey(String),
    TableNotFound(String),
    ColumnMismatch { ref_table: String, target_table: String },
    SchemaMismatch(String),
    Cancelled,
    Config(String),
    Checksum(String),
    Yaml(String),
}

/// The text of an error.
pub open spec fn error_text(e: DataDiffError) -> Seq<char> {
    match e {
        DataDiffError::Postgres(m) => "PostgreSQL error: "@ + m@,
        DataDiffError::Io(m) => "I/O error: "@ + m@,
        DataDiffError::Pool(m) => "Connection pool error: "@ + m@,
        DataDiffError::NoPrimaryKey(t) => "No primary key found for table "@ + t@,
        DataDiffError::TableNotFound(t) => "Table not found: "@ + t@,
        DataDiffError::ColumnMismatch { ref_table, target_table } => {
            "Column mismatch between "@ + ref_table@ + " and "@ + target_table@
        },
        DataDiffError::SchemaMismatch(m) => "Schema mismatch: "@ + m@,
        DataDiffError::Cancelled => "Operation cancelled"@,
        DataDiffError::Config(m) => "Configuration error: "@ + m@,
        DataDiffError::Checksum(m) => "Checksum error: "@ + m@,
        DataDiffError::Yaml(m) => "YAML error: "@ + m@,
    }
}

impl DataDiffError {
    /// The text of the error.
    pub fn message(&self) -> (r: String)
        ensures
            r@ == error_text(*self),
    {
        match self {
            DataDiffError::Postgres(m) => "PostgreSQL error: ".to_owned().concat(m.as_str()),
            DataDiffError::Io(m) => "I/O error: ".to_owned().concat(m.as_str()),
            DataDiffError::Pool(m) => "Connection pool error: ".to_owned().concat(m.as_str()),
            DataDiffError::NoPrimaryKey(t) => {
                "No primary key found for table ".to_owned().concat(t.as_str())
            },
            DataDiffError::TableNotFound(t) => "Table not found: ".to_owned().concat(t.as_str()),
            DataDiffError::ColumnMismatch { ref_table, target_table } => {
                "Column mismatch between ".to_owned().concat(ref_table.as_str()).concat(
                    " and ",
                ).concat(target_table.as_str())
            },
            DataDiffError::SchemaMismatch(m) => "Schema mismatch: ".to_owned().concat(m.as_str()),
            DataDiffError::Cancelled => "Operation cancelled".to_owned(),
            DataDiffError::Config(m) => "Configuration error: ".to_owned().concat(m.as_str()),
            DataDiffError::Checksum(m) => "Checksum error: ".to_owned().concat(m.as_str()),
            DataDiffError::Yaml(m) => "YAML error: ".to_owned().concat(m.as_str()),
        }
    }
}

} // verus!
