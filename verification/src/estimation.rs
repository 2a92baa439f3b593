//! How long a comparison will take.

use vstd::prelude::*;

use crate::chunk_strategy;
use crate::chunk_strategy::StrategyChoice;
use crate::collections::NameSet;
use crate::config;
use crate::config::{DiffConfig, TablePair};
use crate::error::DataDiffError;
use crate::instant::Timestamp;
use crate::outside;
use crate::schema_compare;
use crate::sql_gen;
use crate::table_diff;
use crate::text;
use crate::types::{ChunkStrategy, ColumnInfo, DayCount, Real64, TableAnalysis};

verus! {

/// A query for the hashes of the rows in a range of a column. Where a condition is given, the
/// rows are those of which it holds.
pub open spec fn estimate_statement(
    table: Seq<char>,
    columns: Seq<ColumnInfo>,
    column: Seq<char>,
    filter: Option<Seq<char>>,
) -> Seq<char> {
    "SELECT md5(ROW("@ + sql_gen::name_list(columns) + ")::text) FROM "@ + sql_gen::table_sql(table)
        + sql_gen::where_clause(Some(column), filter)
}

/// Build a query for the hashes of the rows in a range of a column. Where a condition is given,
/// the rows are those of which it holds.
pub fn build_estimate_query(
    table: &str,
    columns: &[ColumnInfo],
    column: &str,
    filter: Option<&str>,
) -> (r: String)
    ensures
        r@ == estimate_statement(table@, columns@, column@, chunk_strategy::text_of(filter)),
{
    let mut out = "SELECT md5(ROW(".to_owned();
    out.append(build_row_column_list(columns).as_str());
    out.append(")::text) FROM ");
    out.append(sql_gen::format_table_name(table).as_str());
    out.append(sql_gen::build_where_clause(Some(column), filter).as_str());
    out
}

/// Build a comma-separated list of quoted column names for use in `ROW(col1, col2, ...)`.
pub fn build_row_column_list(columns: &[ColumnInfo]) -> (r: String)
    ensures
        r@ == sql_gen::name_list(columns@),
{
    sql_gen::column_list(columns)
}

/// What is said of a comparison that would take too long. The times are given as texts: the
/// total in seconds and in hours, and the most that is allowed in seconds.
pub open spec fn too_long_message(total: Seq<char>, hours: Seq<char>, max: Seq<char>) -> Seq<char> {
    "Estimated time to completion: "@ + total + "s ("@ + hours + "h) exceeds maximum allowed "@ + max
        + "s. Use force=true to override."@
}

/// Refuses a comparison that would take longer than is allowed, unless it is forced.
pub fn check_estimate(
    exceeds: bool,
    force: bool,
    total: &str,
    hours: &str,
    max: &str,
) -> (r: Result<(), DataDiffError>)
    ensures
        r is Err <==> exceeds && !force,
        r matches Err(e) ==> e matches DataDiffError::Config(m) && m@ == too_long_message(total@, hours@, max@),
{
    if exceeds && !force {
        let mut message = "Estimated time to completion: ".to_owned();
        message.append(total);
        message.append("s (");
        message.append(hours);
        message.append("h) exceeds maximum allowed ");
        message.append(max);
        message.append("s. Use force=true to override.");
        return Err(DataDiffError::Config(message));
    }
    Ok(())
}

/// The analysis of a reference table; the last one where there are several.
pub open spec fn analysis_of(analyses: Seq<TableAnalysis>, table: Seq<char>) -> Option<TableAnalysis>
    decreases analyses.len(),
{
    if analyses.len() == 0 {
        None
    } else if analyses.last().ref_table@ == table {
        Some(analyses.last())
    } else {
        analysis_of(analyses.drop_last(), table)
    }
}

/// The analysis of a reference table; the last one where there are several.
pub fn find_analysis<'a>(analyses: &'a [TableAnalysis], table: &str) -> (r: Option<&'a TableAnalysis>)
    ensures
        match r {
            Some(a) => analysis_of(analyses@, table@) == Some(*a),
            None => analysis_of(analyses@, table@) is None,
        },
{
    let mut i: usize = analyses.len();
    assert(analyses@.take(i as int) =~= analyses@);
    while i > 0
        invariant
            i <= analyses@.len(),
            analysis_of(analyses@, table@) == analysis_of(analyses@.take(i as int), table@),
        decreases i,
    {
        i = i - 1;
        assert(analyses@.take(i + 1).drop_last() =~= analyses@.take(i as int));
        if text::same_text(analyses[i].ref_table.as_str(), table) {
            return Some(&analyses[i]);
        }
    }
    None
}

/// What an analysis does next for a pair of tables.
#[derive(Debug)]
pub enum EstimationPhase {
    /// Fetch the columns of the reference.
    Columns,
    /// Count the rows of the reference.
    Count { columns: Vec<ColumnInfo> },
    /// Fetch the range of a timestamp column of the reference.
    Range { columns: Vec<ColumnInfo>, column: String },
    /// Estimate the time that the strategy takes.
    Estimate {
        columns: Vec<ColumnInfo>,
        strategy: ChunkStrategy,
        timestamp_column: Option<String>,
    },
    /// Nothing: all pairs are analyzed.
    Done,
}

/// An analysis of pairs of tables, one after the other, that is under way.
#[derive(Debug)]
pub struct EstimationRun {
    pub pairs: Vec<TablePair>,
    /// The configured timestamp column.
    pub timestamp_column: Option<String>,
    /// The tables that are excluded.
    pub exclude_tables: NameSet,
    /// The condition on the rows of the reference.
    pub table_where: Option<String>,
    pub phase: EstimationPhase,
    pub analyses: Vec<TableAnalysis>,
}

/// Starts to analyze all table pairs and estimate total time to completion.
///
/// For each table:
/// 1. Gets column info from the reference database
/// 2. Determines chunk strategy (row count, timestamp detection)
/// 3. Estimates per-table time
pub fn analyze_and_estimate(table_pairs: &[TablePair], config: &DiffConfig) -> (r: EstimationRun)
    ensures
        r.valid(),
        r.pairs@ == table_pairs@,
        r.timestamp_column == config.timestamp_column,
        r.exclude_tables@ == config.exclude_tables@,
        chunk_strategy::owned_text_of(r.table_where) == table_diff::bare_filter(config.table_where),
        r.analyses@.len() == 0,
        table_pairs@.len() > 0 ==> r.phase is Columns,
{
    let pairs = config::copy_pairs(table_pairs);
    let phase = if pairs.len() == 0 {
        EstimationPhase::Done
    } else {
        EstimationPhase::Columns
    };
    EstimationRun {
        pairs,
        timestamp_column: config::copy_option(&config.timestamp_column),
        exclude_tables: config.exclude_tables.clone(),
        table_where: table_diff::make_filter(&config.table_where),
        phase,
        analyses: Vec::new(),
    }
}

impl EstimationRun {
    /// Whether the analyses so far are those of the first pairs, in their order, and there is a
    /// pair for what comes next.
    pub open spec fn valid(self) -> bool {
        &&& self.phase is Done <==> self.analyses@.len() == self.pairs@.len()
        &&& self.analyses@.len() <= self.pairs@.len()
        &&& forall|i: int|
            0 <= i < self.analyses@.len() ==> (#[trigger] self.analyses@[i]).ref_table@ == self.pairs@[i].reference@
                && self.analyses@[i].target_table@ == self.pairs@[i].target@
    }

    /// The pair that is analyzed.
    pub open spec fn pair(self) -> TablePair {
        self.pairs@[self.analyses@.len() as int]
    }

    /// Whether two analyses are of the same pairs, as far as the same one.
    pub open spec fn same_place(self, other: EstimationRun) -> bool {
        &&& self.pairs == other.pairs
        &&& self.timestamp_column == other.timestamp_column
        &&& self.exclude_tables == other.exclude_tables
        &&& self.table_where == other.table_where
        &&& self.analyses == other.analyses
    }

    /// Takes the columns of the reference.
    pub fn take_columns(&mut self, columns: Vec<ColumnInfo>)
        requires
            old(self).valid(),
            old(self).phase is Columns,
        ensures
            final(self).valid(),
            final(self).same_place(*old(self)),
            final(self).phase == (EstimationPhase::Count { columns }),
    {
        self.phase = EstimationPhase::Count { columns };
    }

    /// Takes the number of rows of the reference, which may decide the strategy.
    pub fn take_row_count(&mut self, row_count: i64) -> (r: Result<(), DataDiffError>)
        requires
            old(self).valid(),
            old(self).phase is Count,
        ensures
            final(self).valid(),
            final(self).same_place(*old(self)),
            ({
                let columns = old(self).phase->Count_columns;
                let reference = old(self).pair().reference@;
                let detected = chunk_strategy::timestamp_column(
                    columns@,
                    chunk_strategy::owned_text_of(old(self).timestamp_column),
                );
                let excluded = schema_compare::excludes(
                    old(self).exclude_tables@,
                    config::table_part(reference),
                );
                if row_count <= chunk_strategy::LARGE_ROWS {
                    &&& r is Ok
                    &&& final(self).phase matches EstimationPhase::Estimate {
                        columns: kept,
                        strategy,
                        timestamp_column,
                    } && kept == columns && (if row_count < chunk_strategy::MEDIUM_ROWS {
                        strategy is IdChunkSmall && timestamp_column is None
                    } else {
                        strategy is IdChunkMedium && chunk_strategy::owned_text_of(timestamp_column) == detected
                    })
                } else if detected is Some {
                    &&& r is Ok
                    &&& final(self).phase matches EstimationPhase::Range { columns: kept, column } && kept
                        == columns && Some(column@) == detected
                } else if excluded {
                    &&& r is Ok
                    &&& final(self).phase matches EstimationPhase::Estimate {
                        columns: kept,
                        strategy,
                        timestamp_column,
                    } && kept == columns && strategy is IdChunkLargeExcluded && timestamp_column is None
                } else {
                    &&& r matches Err(DataDiffError::Config(m)) && m@ == chunk_strategy::no_timestamp_message(
                        reference,
                    )
                    &&& final(self).phase is Columns
                }
            }),
    {
        let mut phase = EstimationPhase::Columns;
        core::mem::swap(&mut phase, &mut self.phase);
        let columns = match phase {
            EstimationPhase::Count { columns } => columns,
            _ => Vec::new(),
        };
        let pair = &self.pairs[self.analyses.len()];
        let (_, table) = config::parse_table_name(pair.reference.as_str());
        let excluded = self.exclude_tables.to_lowercase().contains(outside::lowercase(table).as_str());
        let chosen = chunk_strategy::choose_strategy(
            pair.reference.as_str(),
            row_count,
            columns.as_slice(),
            chunk_strategy::borrowed(&self.timestamp_column),
            excluded,
        );
        match chosen {
            Err(e) => Err(e),
            Ok(StrategyChoice::Decided { strategy, timestamp_column }) => {
                self.phase = EstimationPhase::Estimate { columns, strategy, timestamp_column };
                Ok(())
            },
            Ok(StrategyChoice::NeedsRange { column }) => {
                self.phase = EstimationPhase::Range { columns, column };
                Ok(())
            },
        }
    }

    /// The query for the range of the timestamp column of the reference.
    pub fn range_query(&self) -> (r: Option<String>)
        requires
            self.valid(),
        ensures
            match self.phase {
                EstimationPhase::Range { column, .. } => r matches Some(sql) && sql@
                    == chunk_strategy::range_statement(
                    self.pair().reference@,
                    column@,
                    chunk_strategy::owned_text_of(self.table_where),
                ),
                _ => r is None,
            },
    {
        match &self.phase {
            EstimationPhase::Range { column, .. } => Some(
                chunk_strategy::build_range_query(
                    self.pairs[self.analyses.len()].reference.as_str(),
                    column.as_str(),
                    chunk_strategy::borrowed(&self.table_where),
                ),
            ),
            _ => None,
        }
    }

    /// The queries by which a strategy is timed, on the reference and on the target: there are
    /// such queries where a table is split by time.
    pub fn estimate_queries(&self) -> (r: Option<(String, String)>)
        requires
            self.valid(),
        ensures
            match self.phase {
                EstimationPhase::Estimate {
                    columns,
                    strategy: ChunkStrategy::Md5TimestampChunk { timestamp_column, .. },
                    ..
                } => r matches Some(sql) && sql.0@ == estimate_statement(
                    self.pair().reference@,
                    columns@,
                    timestamp_column@,
                    chunk_strategy::owned_text_of(self.table_where),
                ) && sql.1@ == estimate_statement(self.pair().target@, columns@, timestamp_column@, None),
                _ => r is None,
            },
    {
        match &self.phase {
            EstimationPhase::Estimate { columns, strategy, .. } => match strategy {
                ChunkStrategy::Md5TimestampChunk { timestamp_column, .. } => {
                    let pair = &self.pairs[self.analyses.len()];
                    let reference = build_estimate_query(
                        pair.reference.as_str(),
                        columns.as_slice(),
                        timestamp_column.as_str(),
                        chunk_strategy::borrowed(&self.table_where),
                    );
                    let target = build_estimate_query(
                        pair.target.as_str(),
                        columns.as_slice(),
                        timestamp_column.as_str(),
                        None,
                    );
                    Some((reference, target))
                },
                _ => None,
            },
            _ => None,
        }
    }

    /// Takes the range of the timestamp column, which decides the strategy, and the days that a
    /// chunk of it spans.
    pub fn take_range(&mut self, range: Option<(Timestamp, Timestamp)>, chunk_days: DayCount)
        requires
            old(self).valid(),
            old(self).phase is Range,
        ensures
            final(self).valid(),
            final(self).same_place(*old(self)),
            final(self).phase matches EstimationPhase::Estimate { columns, strategy, timestamp_column } && {
                &&& columns == old(self).phase->Range_columns
                &&& timestamp_column == Some(old(self).phase->Range_column)
                &&& match range {
                    Some((min, max)) => strategy matches ChunkStrategy::Md5TimestampChunk {
                        timestamp_column: column,
                        min_ts,
                        max_ts,
                        chunk_days: days,
                    } && column@ == old(self).phase->Range_column@ && min_ts == min && max_ts == max && days
                        == chunk_days,
                    None => strategy is IdChunkSmall,
                }
            },
    {
        let mut phase = EstimationPhase::Columns;
        core::mem::swap(&mut phase, &mut self.phase);
        match phase {
            EstimationPhase::Range { columns, column } => {
                let (strategy, timestamp_column) = chunk_strategy::determine_strategy(
                    StrategyChoice::NeedsRange { column },
                    range,
                    chunk_days,
                );
                self.phase = EstimationPhase::Estimate { columns, strategy, timestamp_column };
            },
            _ => {},
        }
    }

    /// Takes the estimated time for the pair, and goes on to the next one.
    pub fn take_estimate(&mut self, row_count: i64, estimated_seconds: Real64)
        requires
            old(self).valid(),
            old(self).phase is Estimate,
        ensures
            final(self).valid(),
            final(self).pairs == old(self).pairs,
            final(self).timestamp_column == old(self).timestamp_column,
            final(self).exclude_tables == old(self).exclude_tables,
            final(self).table_where == old(self).table_where,
            final(self).analyses@.len() == old(self).analyses@.len() + 1,
            final(self).analyses@.drop_last() == old(self).analyses@,
            ({
                let last = final(self).analyses@.last();
                &&& last.ref_table@ == old(self).pair().reference@
                &&& last.target_table@ == old(self).pair().target@
                &&& last.row_count == row_count
                &&& last.timestamp_column == old(self).phase->Estimate_timestamp_column
                &&& last.strategy == old(self).phase->Estimate_strategy
                &&& last.estimated_seconds == estimated_seconds
            }),
            final(self).analyses@.len() < final(self).pairs@.len() ==> final(self).phase is Columns,
    {
        let mut phase = EstimationPhase::Columns;
        core::mem::swap(&mut phase, &mut self.phase);
        match phase {
            EstimationPhase::Estimate { strategy, timestamp_column, .. } => {
                let ghost before = self.analyses@;
                let pair = &self.pairs[self.analyses.len()];
                let analysis = TableAnalysis {
                    ref_table: pair.reference.clone(),
                    target_table: pair.target.clone(),
                    row_count,
                    timestamp_column,
                    strategy,
                    estimated_seconds,
                };
                self.analyses.push(analysis);
                assert(self.analyses@.drop_last() =~= before);
                if self.analyses.len() == self.pairs.len() {
                    self.phase = EstimationPhase::Done;
                }
            },
            _ => {},
        }
    }
}

} // verus!
