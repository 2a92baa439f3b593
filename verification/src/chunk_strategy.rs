//! How a table is split for comparison.

use vstd::prelude::*;

use crate::error::DataDiffError;
use crate::instant;
use crate::instant::Timestamp;
use crate::outside;
use crate::sql_gen;
use crate::text;
use crate::types;
use crate::types::{ChunkStrategy, ColumnInfo, DayCount, PgType};

verus! {

/// Tables with fewer rows are small.
pub const MEDIUM_ROWS: i64 = 100_000;

/// Tables with more rows are large.
pub const LARGE_ROWS: i64 = 1_000_000;

/// Whether values of a column type are points in time or dates.
pub open spec fn is_time_type(pg_type: PgType) -> bool {
    pg_type is Timestamp || pg_type is Timestamptz || pg_type is Date
}

/// Whether a column can be used for chunking, and its lowercase name starts with a prefix.
pub open spec fn is_time_column(column: ColumnInfo, prefix: Seq<char>) -> bool {
    prefix.is_prefix_of(outside::lowercase_text(column.name@)) && is_time_type(column.pg_type)
}

/// The name of the first column that can be used for chunking and whose lowercase name starts
/// with a prefix.
pub open spec fn first_time_column(columns: Seq<ColumnInfo>, prefix: Seq<char>) -> Option<Seq<char>>
    decreases columns.len(),
{
    if columns.len() == 0 {
        None
    } else if is_time_column(columns[0], prefix) {
        Some(columns[0].name@)
    } else {
        first_time_column(columns.drop_first(), prefix)
    }
}

/// The timestamp column for chunking: the configured one where the table has it, else the first
/// one named `update*`, else the first one named `create*`.
pub open spec fn timestamp_column(
    columns: Seq<ColumnInfo>,
    config_timestamp: Option<Seq<char>>,
) -> Option<Seq<char>> {
    if config_timestamp matches Some(name) && types::has_column(columns, name) {
        config_timestamp
    } else if first_time_column(columns, "update"@) is Some {
        first_time_column(columns, "update"@)
    } else {
        first_time_column(columns, "create"@)
    }
}

/// What an optional string holds.
pub open spec fn text_of(s: Option<&str>) -> Option<Seq<char>> {
    match s {
        Some(t) => Some(t@),
        None => None,
    }
}

/// What an optional owned string holds.
pub open spec fn owned_text_of(s: Option<String>) -> Option<Seq<char>> {
    match s {
        Some(t) => Some(t@),
        None => None,
    }
}

/// What an optional owned string holds, as an optional borrowed one.
pub fn borrowed(s: &Option<String>) -> (r: Option<&str>)
    ensures
        text_of(r) == owned_text_of(*s),
{
    match s {
        Some(t) => Some(t.as_str()),
        None => None,
    }
}

proof fn lemma_type_names()
    ensures
        forall|t: PgType|
            (text::has_part(text::ascii_lower(#[trigger] types::pg_type_text(t)), "timestamp"@)
                || text::has_part(text::ascii_lower(types::pg_type_text(t)), "timestamptz"@)
                || text::has_part(text::ascii_lower(types::pg_type_text(t)), "date"@)) <==> is_time_type(t),
        forall|t: PgType| vstd::utf8::is_ascii_chars(#[trigger] types::pg_type_text(t)),
{
    reveal_strlit("bool");
    reveal_strlit("int2");
    reveal_strlit("int4");
    reveal_strlit("int8");
    reveal_strlit("float4");
    reveal_strlit("float8");
    reveal_strlit("numeric");
    reveal_strlit("text");
    reveal_strlit("varchar");
    reveal_strlit("bpchar");
    reveal_strlit("bytea");
    reveal_strlit("timestamp");
    reveal_strlit("timestamptz");
    reveal_strlit("date");
    reveal_strlit("time");
    reveal_strlit("uuid");
    reveal_strlit("json");
    reveal_strlit("jsonb");
    reveal_strlit("oid");
    reveal_strlit("name");
    assert forall|t: PgType|
        (text::has_part(text::ascii_lower(#[trigger] types::pg_type_text(t)), "timestamp"@)
            || text::has_part(text::ascii_lower(types::pg_type_text(t)), "timestamptz"@)
            || text::has_part(text::ascii_lower(types::pg_type_text(t)), "date"@)) <==> is_time_type(t) by {
        let name = types::pg_type_text(t);
        let low = text::ascii_lower(name);
        assert forall|i: int| 0 <= i < name.len() implies low[i] == name[i] by {}
        assert(low =~= name);
        if t is Timestamp {
            assert(name.subrange(0, 0int + "timestamp"@.len()) =~= "timestamp"@);
        } else if t is Timestamptz {
            assert(name.subrange(0, 0int + "timestamptz"@.len()) =~= "timestamptz"@);
        } else if t is Date {
            assert(name.subrange(0, 0int + "date"@.len()) =~= "date"@);
        } else {
            assert(name.len() <= 7);
            assert forall|i: int| 0 <= i <= name.len() - 4 implies #[trigger] name.subrange(i, i + "date"@.len())
                != "date"@ by {
                assert(name.subrange(i, i + 4)[0] == name[i]);
                assert("date"@[0] == 'd');
                assert(name[i] != 'd');
            }
        }
    }
}

/// Whether values of a column type are points in time or dates, by the name of the type.
fn holds_time(pg_type: PgType) -> (r: bool)
    ensures
        r == is_time_type(pg_type),
{
    proof { lemma_type_names(); }
    let shown = outside::type_display(pg_type.oid());
    let name = outside::lowercase(shown.as_str());
    text::contains(name.as_str(), "timestamp") || text::contains(name.as_str(), "timestamptz")
        || text::contains(name.as_str(), "date")
}

/// The name of the first column that can be used for chunking and whose lowercase name starts
/// with a prefix.
fn find_time_column(columns: &[ColumnInfo], prefix: &str) -> (r: Option<String>)
    ensures
        owned_text_of(r) == first_time_column(columns@, prefix@),
{
    assert(columns@.skip(0) =~= columns@);
    for i in 0..columns.len()
        invariant
            first_time_column(columns@, prefix@) == first_time_column(columns@.skip(i as int), prefix@),
    {
        let column = &columns[i];
        let name = outside::lowercase(column.name.as_str());
        if text::starts_with(name.as_str(), prefix) && holds_time(column.pg_type) {
            return Some(column.name.clone());
        }
        assert(columns@.skip(i as int).drop_first() =~= columns@.skip(i + 1));
    }
    None
}

/// Detect a timestamp column for chunking.
///
/// Priority:
/// 1. Config override (`config_timestamp`)
/// 2. Column matching `update*` pattern (TIMESTAMP/TIMESTAMPTZ/DATE type)
/// 3. Column matching `create*` pattern (TIMESTAMP/TIMESTAMPTZ/DATE type)
pub fn detect_timestamp_column(
    columns: &[ColumnInfo],
    config_timestamp: Option<&str>,
) -> (r: Option<String>)
    ensures
        owned_text_of(r) == timestamp_column(columns@, text_of(config_timestamp)),
{
    if let Some(name) = config_timestamp {
        if types::find_column(columns, name).is_some() {
            return Some(name.to_owned());
        }
    }
    match find_time_column(columns, "update") {
        Some(name) => Some(name),
        None => find_time_column(columns, "create"),
    }
}

/// A query for the lowest and the highest value of a column. Where a condition is given, it is
/// for the rows of which it holds.
pub open spec fn range_statement(
    table: Seq<char>,
    column: Seq<char>,
    filter: Option<Seq<char>>,
) -> Seq<char> {
    "SELECT MIN("@ + sql_gen::quoted(column) + ")::timestamp, MAX("@ + sql_gen::quoted(column)
        + ")::timestamp FROM "@ + sql_gen::table_sql(table) + sql_gen::where_clause(None, filter)
}

/// Build a query for the min and max values of a timestamp column. Where a condition is given,
/// it is for the rows of which it holds.
pub fn build_range_query(schema_qualified_name: &str, ts_col: &str, filter: Option<&str>) -> (r: String)
    ensures
        r@ == range_statement(schema_qualified_name@, ts_col@, text_of(filter)),
{
    let column = sql_gen::quote_identifier(ts_col);
    let mut out = "SELECT MIN(".to_owned();
    out.append(column.as_str());
    out.append(")::timestamp, MAX(");
    out.append(column.as_str());
    out.append(")::timestamp FROM ");
    out.append(sql_gen::format_table_name(schema_qualified_name).as_str());
    out.append(sql_gen::build_where_clause(None, filter).as_str());
    out
}

/// The range of a timestamp column from its lowest and its highest value: none where the table
/// has no such values.
pub fn get_timestamp_range(
    min_ts: Option<Timestamp>,
    max_ts: Option<Timestamp>,
) -> (r: Option<(Timestamp, Timestamp)>)
    ensures
        r == match (min_ts, max_ts) {
            (Some(min), Some(max)) => Some((min, max)),
            _ => None,
        },
{
    match (min_ts, max_ts) {
        (Some(min), Some(max)) => Some((min, max)),
        _ => None,
    }
}

/// What the number of rows and the columns say of how to split a table.
#[derive(Clone, Debug)]
pub enum StrategyChoice {
    /// The strategy, and the timestamp column that was detected.
    Decided { strategy: ChunkStrategy, timestamp_column: Option<String> },
    /// The range of the timestamp column decides.
    NeedsRange { column: String },
}

/// What is said of a large table that can be split neither by time nor left unsplit.
pub open spec fn no_timestamp_message(table: Seq<char>) -> Seq<char> {
    "Table '"@ + table
        + "' has >1M rows but no timestamp column detected. Define a timestamp column in config (timestamp_column) or add the table to the exclusion list."@
}

/// Choose how to split a table based on row count and available timestamp column.
///
/// Logic:
/// - >1M rows + timestamp: the range of the timestamp column decides
/// - >1M rows + no timestamp + excluded: `IdChunkLargeExcluded`
/// - >1M rows + no timestamp + not excluded: error
/// - 100K-1M rows: `IdChunkMedium`
/// - <100K rows: `IdChunkSmall`
pub fn choose_strategy(
    schema_qualified_name: &str,
    row_count: i64,
    columns: &[ColumnInfo],
    config_timestamp: Option<&str>,
    is_excluded: bool,
) -> (r: Result<StrategyChoice, DataDiffError>)
    ensures
        ({
            let detected = timestamp_column(columns@, text_of(config_timestamp));
            match r {
                Ok(StrategyChoice::Decided { strategy, timestamp_column: found }) => if row_count < MEDIUM_ROWS {
                    strategy is IdChunkSmall && found is None
                } else if row_count <= LARGE_ROWS {
                    strategy is IdChunkMedium && owned_text_of(found) == detected
                } else {
                    detected is None && is_excluded && strategy is IdChunkLargeExcluded && found is None
                },
                Ok(StrategyChoice::NeedsRange { column: found }) => row_count > LARGE_ROWS
                    && detected == Some(found@),
                Err(e) => row_count > LARGE_ROWS && detected is None && !is_excluded
                    && (e matches DataDiffError::Config(m) && m@ == no_timestamp_message(schema_qualified_name@)),
            }
        }),
{
    if row_count < MEDIUM_ROWS {
        return Ok(
            StrategyChoice::Decided { strategy: ChunkStrategy::IdChunkSmall, timestamp_column: None },
        );
    }
    let detected = detect_timestamp_column(columns, config_timestamp);
    if row_count <= LARGE_ROWS {
        return Ok(
            StrategyChoice::Decided {
                strategy: ChunkStrategy::IdChunkMedium,
                timestamp_column: detected,
            },
        );
    }
    match detected {
        Some(column) => Ok(StrategyChoice::NeedsRange { column }),
        None => {
            if is_excluded {
                Ok(
                    StrategyChoice::Decided {
                        strategy: ChunkStrategy::IdChunkLargeExcluded,
                        timestamp_column: None,
                    },
                )
            } else {
                let mut message = "Table '".to_owned();
                message.append(schema_qualified_name);
                message.append(
                    "' has >1M rows but no timestamp column detected. Define a timestamp column in config (timestamp_column) or add the table to the exclusion list.",
                );
                Err(DataDiffError::Config(message))
            }
        },
    }
}

/// Determine the chunk strategy for a table from what was chosen for it, the range of its
/// timestamp column, and the days that a chunk spans. A large table whose timestamp column holds
/// no value is treated as small.
///
/// Returns `(strategy, detected_timestamp_column)`.
pub fn determine_strategy(
    choice: StrategyChoice,
    range: Option<(Timestamp, Timestamp)>,
    chunk_days: DayCount,
) -> (r: (ChunkStrategy, Option<String>))
    ensures
        match choice {
            StrategyChoice::Decided { strategy, timestamp_column } => r == (strategy, timestamp_column),
            StrategyChoice::NeedsRange { column } => {
                &&& r.1 == Some(column)
                &&& match range {
                    Some((min, max)) => r.0 matches ChunkStrategy::Md5TimestampChunk {
                        timestamp_column,
                        min_ts,
                        max_ts,
                        chunk_days: days,
                    } && timestamp_column@ == column@ && min_ts == min && max_ts == max && days == chunk_days,
                    None => r.0 is IdChunkSmall,
                }
            },
        },
{
    match choice {
        StrategyChoice::Decided { strategy, timestamp_column } => (strategy, timestamp_column),
        StrategyChoice::NeedsRange { column } => {
            match range {
                Some((min_ts, max_ts)) => (
                    ChunkStrategy::Md5TimestampChunk {
                        timestamp_column: column.clone(),
                        min_ts,
                        max_ts,
                        chunk_days,
                    },
                    Some(column),
                ),
                None => (ChunkStrategy::IdChunkSmall, Some(column)),
            }
        },
    }
}

/// The part of a time range that one chunk covers: from `start` on, and before `end`.
#[derive(Clone, Copy, Debug, PartialEq, Eq, Structural)]
pub struct ChunkBounds {
    pub start: Timestamp,
    pub end: Timestamp,
}

impl ChunkBounds {
    /// Whether a point in time is in the chunk.
    pub open spec fn covers(self, nanos: int) -> bool {
        self.start.total_nanos() <= nanos < self.end.total_nanos()
    }
}

/// The seconds at which a chunk starts.
pub open spec fn chunk_start(min_ts: Timestamp, offsets: Seq<i64>, i: int) -> int {
    min_ts.secs() + offsets[i]
}

/// The seconds at which a chunk ends: where the next one starts, and a second after the highest
/// value for the last one.
pub open spec fn chunk_end(min_ts: Timestamp, max_ts: Timestamp, offsets: Seq<i64>, i: int) -> int {
    if i == offsets.len() - 1 {
        max_ts.secs() + 1
    } else {
        chunk_start(min_ts, offsets, i + 1)
    }
}

/// The nanoseconds after the second in which a chunk ends.
pub open spec fn chunk_end_nanos(min_ts: Timestamp, max_ts: Timestamp, offsets: Seq<i64>, i: int) -> int {
    if i == offsets.len() - 1 {
        max_ts.nanos()
    } else {
        min_ts.nanos()
    }
}

/// Whether bounds are those of a chunk.
pub open spec fn bounds_chunk(
    bounds: ChunkBounds,
    min_ts: Timestamp,
    max_ts: Timestamp,
    offsets: Seq<i64>,
    i: int,
) -> bool {
    &&& bounds.start.secs() == chunk_start(min_ts, offsets, i)
    &&& bounds.start.nanos() == min_ts.nanos()
    &&& bounds.end.secs() == chunk_end(min_ts, max_ts, offsets, i)
    &&& bounds.end.nanos() == chunk_end_nanos(min_ts, max_ts, offsets, i)
}

/// Whether all bounds of a chunk are in the range of a timestamp.
pub open spec fn chunk_in_range(min_ts: Timestamp, max_ts: Timestamp, offsets: Seq<i64>, i: int) -> bool {
    instant::seconds_in_range(chunk_start(min_ts, offsets, i)) && instant::seconds_in_range(
        chunk_end(min_ts, max_ts, offsets, i),
    )
}

/// Split a time range into chunks, which start the given seconds after its start. There is no
/// answer where a chunk would leave the range of a timestamp.
pub fn chunk_bounds(
    min_ts: Timestamp,
    max_ts: Timestamp,
    offsets: &[i64],
) -> (r: Option<Vec<ChunkBounds>>)
    ensures
        r is Some <==> forall|i: int|
            0 <= i < offsets@.len() ==> #[trigger] chunk_in_range(min_ts, max_ts, offsets@, i),
        r matches Some(bounds) ==> bounds@.len() == offsets@.len() && forall|i: int|
            0 <= i < offsets@.len() ==> bounds_chunk(#[trigger] bounds@[i], min_ts, max_ts, offsets@, i),
{
    let mut bounds: Vec<ChunkBounds> = Vec::new();
    let n: usize = offsets.len();
    for i in 0..n
        invariant
            n == offsets@.len(),
            bounds@.len() == i,
            forall|j: int| 0 <= j < i ==> #[trigger] chunk_in_range(min_ts, max_ts, offsets@, j),
            forall|j: int| 0 <= j < i ==> bounds_chunk(#[trigger] bounds@[j], min_ts, max_ts, offsets@, j),
    {
        let start = min_ts.plus_seconds(offsets[i]);
        let end = if i == n - 1 {
            max_ts.plus_seconds(1)
        } else {
            min_ts.plus_seconds(offsets[i + 1])
        };
        assert(start is Some && end is Some <==> chunk_in_range(min_ts, max_ts, offsets@, i as int));
        match (start, end) {
            (Some(start), Some(end)) => {
                bounds.push(ChunkBounds { start, end });
            },
            _ => {
                return None;
            },
        }
    }
    Some(bounds)
}

/// Whether bounds are those of the chunks that a strategy splits a table into, none where it does
/// not split by time.
pub open spec fn are_bounds(bounds: Seq<ChunkBounds>, strategy: ChunkStrategy, offsets: Seq<i64>) -> bool {
    match strategy {
        ChunkStrategy::Md5TimestampChunk { min_ts, max_ts, .. } => {
            &&& bounds.len() == offsets.len()
            &&& forall|i: int|
                0 <= i < offsets.len() ==> bounds_chunk(#[trigger] bounds[i], min_ts, max_ts, offsets, i)
        },
        _ => bounds.len() == 0,
    }
}

/// Whether the chunks that a strategy splits a table into are in the range of a timestamp.
pub open spec fn strategy_in_range(strategy: ChunkStrategy, offsets: Seq<i64>) -> bool {
    match strategy {
        ChunkStrategy::Md5TimestampChunk { min_ts, max_ts, .. } => forall|i: int|
            0 <= i < offsets.len() ==> #[trigger] chunk_in_range(min_ts, max_ts, offsets, i),
        _ => true,
    }
}

/// The chunks that a strategy splits a table into, which start the given seconds after the start
/// of its range; none where it does not split by time. There is no answer where a chunk would
/// leave the range of a timestamp.
pub fn strategy_bounds(strategy: &ChunkStrategy, offsets: &[i64]) -> (r: Option<Vec<ChunkBounds>>)
    ensures
        r is Some <==> strategy_in_range(*strategy, offsets@),
        r matches Some(bounds) ==> are_bounds(bounds@, *strategy, offsets@),
{
    match strategy {
        ChunkStrategy::Md5TimestampChunk { min_ts, max_ts, .. } => chunk_bounds(*min_ts, *max_ts, offsets),
        _ => Some(Vec::new()),
    }
}

/// The place of the last chunk that starts at or before a point in time.
proof fn lemma_last_start(min_ts: Timestamp, offsets: Seq<i64>, nanos: int, n: int) -> (i: int)
    requires
        0 < n <= offsets.len(),
        chunk_start(min_ts, offsets, 0) * (instant::NANOS_PER_SECOND as int) + min_ts.nanos() <= nanos,
    ensures
        0 <= i < n,
        chunk_start(min_ts, offsets, i) * (instant::NANOS_PER_SECOND as int) + min_ts.nanos() <= nanos,
        i + 1 < n ==> nanos < chunk_start(min_ts, offsets, i + 1) * (instant::NANOS_PER_SECOND as int) + min_ts.nanos(),
    decreases n,
{
    if n == 1 || chunk_start(min_ts, offsets, n - 1) * (instant::NANOS_PER_SECOND as int) + min_ts.nanos() <= nanos {
        n - 1
    } else {
        lemma_last_start(min_ts, offsets, nanos, n - 1)
    }
}

/// The chunks of a time range neither overlap nor leave a gap: each point in time from the start
/// to the end of the range is in exactly one.
pub proof fn chunks_tile_the_range(
    min_ts: Timestamp,
    max_ts: Timestamp,
    offsets: Seq<i64>,
    bounds: Seq<ChunkBounds>,
    nanos: int,
)
    requires
        offsets.len() > 0,
        offsets[0] == 0,
        forall|i: int, j: int| 0 <= i < j < offsets.len() ==> #[trigger] offsets[i] <= #[trigger] offsets[j],
        bounds.len() == offsets.len(),
        forall|i: int| 0 <= i < offsets.len() ==> bounds_chunk(#[trigger] bounds[i], min_ts, max_ts, offsets, i),
        min_ts.total_nanos() <= nanos <= max_ts.total_nanos(),
    ensures
        exists|i: int| 0 <= i < bounds.len() && (#[trigger] bounds[i]).covers(nanos),
        forall|i: int, j: int|
            0 <= i < bounds.len() && 0 <= j < bounds.len() && (#[trigger] bounds[i]).covers(nanos) && (
            #[trigger] bounds[j]).covers(nanos) ==> i == j,
{
    let i = lemma_last_start(min_ts, offsets, nanos, offsets.len() as int);
    assert(bounds_chunk(bounds[i], min_ts, max_ts, offsets, i));
    assert(bounds[i].covers(nanos));
    assert forall|i: int, j: int|
        0 <= i < bounds.len() && 0 <= j < bounds.len() && (#[trigger] bounds[i]).covers(nanos) && (
        #[trigger] bounds[j]).covers(nanos) implies i == j by {
        if i < j {
            lemma_apart(min_ts, max_ts, offsets, bounds, i, j);
        } else if j < i {
            lemma_apart(min_ts, max_ts, offsets, bounds, j, i);
        }
    }
}

proof fn lemma_apart(
    min_ts: Timestamp,
    max_ts: Timestamp,
    offsets: Seq<i64>,
    bounds: Seq<ChunkBounds>,
    i: int,
    j: int,
)
    requires
        forall|i: int, j: int| 0 <= i < j < offsets.len() ==> #[trigger] offsets[i] <= #[trigger] offsets[j],
        bounds.len() == offsets.len(),
        forall|i: int| 0 <= i < offsets.len() ==> bounds_chunk(#[trigger] bounds[i], min_ts, max_ts, offsets, i),
        0 <= i < j < bounds.len(),
    ensures
        bounds[i].end.total_nanos() <= bounds[j].start.total_nanos(),
{
    assert(bounds_chunk(bounds[i], min_ts, max_ts, offsets, i));
    assert(bounds_chunk(bounds[j], min_ts, max_ts, offsets, j));
    if i + 1 < j {
        assert(offsets[i + 1] <= offsets[j]);
    }
}

} // verus!
