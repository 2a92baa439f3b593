//! Laws of what is configured: names, pairs, keys, columns and strategies.

use vstd::prelude::*;

use crate::chunk_strategy;
use crate::chunk_strategy::StrategyChoice;
use crate::config;
use crate::error::DataDiffError;
use crate::metadata;
use crate::metadata::CatalogColumn;
use crate::outside;
use crate::row_laws;
use crate::text;
use crate::text_laws;
use crate::types::{ColumnInfo, PgType};

verus! {

/// A pair is what stands before the first colon and what stands after it; a name without a colon
/// is both.
pub proof fn a_pair_is_divided_at_the_first_colon(reference: Seq<char>, target: Seq<char>)
    requires
        !reference.contains(':'),
    ensures
        config::pair_of(reference) == (reference, reference),
        config::pair_of(reference + seq![':'] + target) == (reference, target),
{
    text_laws::a_text_is_divided_at_the_first(reference, target, ':');
}

/// A name is divided at its first dot into a schema and a table; without a dot it is a table.
pub proof fn a_name_is_divided_at_the_first_dot(schema: Seq<char>, table: Seq<char>)
    requires
        !schema.contains('.'),
    ensures
        config::schema_part(schema) is None,
        config::table_part(schema) == schema,
        config::schema_part(schema + seq!['.'] + table) == Some(schema),
        config::table_part(schema + seq!['.'] + table) == table,
{
    text_laws::a_text_is_divided_at_the_first(schema, table, '.');
}

/// An alternate key has all columns that stand after the colon with commas between, each without
/// the white space around it, and in their order.
pub proof fn an_alternate_key_has_all_columns(table: Seq<char>, parts: Seq<Seq<char>>)
    requires
        !table.contains(':'),
        parts.len() > 0,
        forall|i: int| 0 <= i < parts.len() ==> !(#[trigger] parts[i]).contains(','),
    ensures
        ({
            let s = table + seq![':'] + text::joined(parts, seq![',']);
            &&& config::key_columns(s).len() == parts.len()
            &&& forall|i: int| 0 <= i < parts.len() ==> #[trigger] config::key_columns(s)[i] == text::trimmed(parts[i])
        }),
{
    text_laws::a_text_is_divided_at_the_first(table, text::joined(parts, seq![',']), ':');
    text_laws::splitting_undoes_joining(parts, ',');
}

/// Each text adds the alternate key of the table that it names, in place of an earlier one, and
/// leaves those of other tables as they are.
pub proof fn the_last_alternate_key_of_a_table_stands(
    raw: Seq<Seq<char>>,
    table: Seq<char>,
    columns: Seq<char>,
    other: Seq<char>,
)
    requires
        !table.contains(':'),
    ensures
        ({
            let s = table + seq![':'] + columns;
            let before = config::alternate_keys_of(raw);
            let after = config::alternate_keys_of(raw.push(s));
            &&& after.contains_key(table) && after[table] == config::key_columns(s)
            &&& other != table ==> (after.contains_key(other) <==> before.contains_key(other))
            &&& other != table && after.contains_key(other) ==> after[other] == before[other]
        }),
        !config::alternate_keys_of(Seq::empty()).contains_key(other),
{
    let s = table + seq![':'] + columns;
    text_laws::a_text_is_divided_at_the_first(table, columns, ':');
    assert(raw.push(s).drop_last() =~= raw);
}

/// The alternate key of a table is that for its name in the target, and only where there is none
/// that for its name in the reference.
pub proof fn alternate_keys_go_by_the_name_in_the_target(
    keys: Map<Seq<char>, Vec<String>>,
    target: Seq<char>,
    reference: Seq<char>,
)
    ensures
        ({
            let found = config::alternate_keys_of_table(keys, target, reference);
            &&& keys.contains_key(target) ==> found == Some(text::texts(keys[target]@))
            &&& !keys.contains_key(target) && keys.contains_key(reference) ==> found == Some(
                text::texts(keys[reference]@),
            )
            &&& found is None <==> !keys.contains_key(target) && !keys.contains_key(reference)
        }),
{
}

/// A column is one of the primary key exactly where one of the names is its own, whatever the
/// case of ASCII letters.
pub proof fn key_names_match_whatever_the_case(names: Seq<String>, name: Seq<char>, i: int)
    ensures
        0 <= i < names.len() && text::ascii_lower(names[i]@) == text::ascii_lower(name)
            ==> metadata::names_match(names, name),
        metadata::names_match(names, name) ==> exists|j: int|
            0 <= j < names.len() && text::ascii_lower((#[trigger] names[j])@) == text::ascii_lower(name),
{
}

/// Values of a column are generated where it is an identity column, whatever its default, and
/// where its default takes the next value of a sequence; and nowhere else.
pub proof fn generated_columns_have_a_sequence(column: CatalogColumn, rest: Seq<char>)
    ensures
        column.is_identity@ == "YES"@ ==> metadata::is_generated(column),
        (column.column_default matches Some(d) && d@ == "nextval("@ + rest) ==> metadata::is_generated(column),
        column.is_identity@ != "YES"@ && column.column_default is None ==> !metadata::is_generated(column),
        metadata::is_generated(column) && column.is_identity@ != "YES"@ ==> exists|tail: Seq<char>|
            column.column_default is Some && column.column_default->0@ == #[trigger] ("nextval("@ + tail),
{
    let start = "nextval("@;
    if let Some(d) = column.column_default {
        if d@ == start + rest {
            assert(d@.take(start.len() as int) =~= start);
        }
        if start.is_prefix_of(d@) {
            assert(d@ =~= start + d@.skip(start.len() as int));
        }
    }
}

/// A column is told with the name, type, key and place that the catalog gives it.
pub proof fn a_column_is_what_the_catalog_says(
    column: ColumnInfo,
    catalog: CatalogColumn,
    pk_names: Seq<String>,
    ordinal: int,
)
    requires
        metadata::describes(column, catalog, pk_names, ordinal),
    ensures
        column.name@ == catalog.column_name@,
        column.pg_type == metadata::type_of_name(catalog.udt_name@),
        column.is_pk <==> exists|i: int|
            0 <= i < pk_names.len() && text::ascii_lower((#[trigger] pk_names[i])@) == text::ascii_lower(
                catalog.column_name@,
            ),
        column.is_identity <==> metadata::is_generated(catalog),
        column.ordinal == ordinal,
{
}

/// Whether a column holds points in time or dates and its lowercase name starts with a prefix.
pub open spec fn tells_time(column: ColumnInfo, prefix: Seq<char>) -> bool {
    &&& column.pg_type == PgType::Timestamp || column.pg_type == PgType::Timestamptz || column.pg_type == PgType::Date
    &&& outside::lowercase_text(column.name@).len() >= prefix.len()
    &&& outside::lowercase_text(column.name@).take(prefix.len() as int) == prefix
}

/// Whether the first column that tells time under a prefix stands at a place.
pub open spec fn tells_time_first(columns: Seq<ColumnInfo>, prefix: Seq<char>, i: int) -> bool {
    &&& 0 <= i < columns.len()
    &&& tells_time(columns[i], prefix)
    &&& forall|j: int| 0 <= j < i ==> !tells_time(#[trigger] columns[j], prefix)
}

/// Whether no column tells time under a prefix.
pub open spec fn none_tells_time(columns: Seq<ColumnInfo>, prefix: Seq<char>) -> bool {
    forall|j: int| 0 <= j < columns.len() ==> !tells_time(#[trigger] columns[j], prefix)
}

proof fn lemma_first_time_column(columns: Seq<ColumnInfo>, prefix: Seq<char>, i: int)
    ensures
        tells_time_first(columns, prefix, i) ==> chunk_strategy::first_time_column(columns, prefix) == Some(
            columns[i].name@,
        ),
        none_tells_time(columns, prefix) <==> chunk_strategy::first_time_column(columns, prefix) is None,
    decreases columns.len(),
{
    if columns.len() > 0 {
        let first = outside::lowercase_text(columns[0].name@);
        assert(tells_time(columns[0], prefix) <==> chunk_strategy::is_time_column(columns[0], prefix)) by {
            if prefix.is_prefix_of(first) {
                assert(first.take(prefix.len() as int) =~= prefix);
            }
        }
        let rest = columns.drop_first();
        lemma_first_time_column(rest, prefix, i - 1);
        if tells_time_first(columns, prefix, i) && i > 0 {
            assert(!tells_time(columns[0], prefix));
            assert forall|j: int| 0 <= j < i - 1 implies !tells_time(#[trigger] rest[j], prefix) by {
                assert(rest[j] == columns[j + 1]);
            }
            assert(rest[i - 1] == columns[i]);
        }
        if none_tells_time(columns, prefix) {
            assert forall|j: int| 0 <= j < rest.len() implies !tells_time(#[trigger] rest[j], prefix) by {
                assert(rest[j] == columns[j + 1]);
            }
            assert(!tells_time(columns[0], prefix));
        }
        if none_tells_time(rest, prefix) && !tells_time(columns[0], prefix) {
            assert forall|j: int| 0 <= j < columns.len() implies !tells_time(#[trigger] columns[j], prefix) by {
                if j > 0 {
                    assert(rest[j - 1] == columns[j]);
                }
            }
        }
    }
}

/// A table is split by the configured column where it has it, else by its first column for
/// updates, and where it has none by its first column for creation; where it has none of these it
/// is not split by time.
pub proof fn a_table_is_split_by_the_first_column_for_it(
    columns: Seq<ColumnInfo>,
    configured: Option<Seq<char>>,
    i: int,
)
    ensures
        ({
            let found = chunk_strategy::timestamp_column(columns, configured);
            let given = configured is Some && !row_laws::stands_nowhere(columns, configured->0);
            &&& given ==> found == configured
            &&& !given && tells_time_first(columns, "update"@, i) ==> found == Some(columns[i].name@)
            &&& !given && none_tells_time(columns, "update"@) && tells_time_first(columns, "create"@, i) ==> found
                == Some(columns[i].name@)
            &&& found is None <==> !given && none_tells_time(columns, "update"@) && none_tells_time(
                columns,
                "create"@,
            )
        }),
{
    lemma_first_time_column(columns, "update"@, i);
    lemma_first_time_column(columns, "create"@, i);
    if let Some(name) = configured {
        row_laws::a_column_is_not_found_without_its_name(columns, name);
    }
}

/// Tables are small below a hundred thousand rows, and large above a million.
pub proof fn tables_are_large_above_a_million_rows()
    ensures
        chunk_strategy::MEDIUM_ROWS == 100 * 1000,
        chunk_strategy::LARGE_ROWS == 1000 * 1000,
{
}

/// A table with fewer than a hundred thousand rows is compared whole, and one with up to a million
/// rows is too. A larger one is split by time where it has a column for it; where it has none it
/// has to be excluded, or it is refused by its name.
pub proof fn large_tables_are_split_by_time(
    table: &str,
    row_count: i64,
    columns: &[ColumnInfo],
    configured: Option<&str>,
    is_excluded: bool,
    r: Result<StrategyChoice, DataDiffError>,
)
    requires
        call_ensures(
            chunk_strategy::choose_strategy,
            (table, row_count, columns, configured, is_excluded),
            r,
        ),
    ensures
        ({
            let column = chunk_strategy::timestamp_column(columns@, chunk_strategy::text_of(configured));
            &&& r is Err <==> row_count > 1_000_000 && column is None && !is_excluded
            &&& r matches Ok(StrategyChoice::NeedsRange { column: found }) ==> column == Some(found@)
            &&& r matches Ok(choice) ==> (choice is NeedsRange <==> row_count > 1_000_000 && column is Some)
            &&& r matches Ok(StrategyChoice::Decided { strategy, .. }) ==> (strategy is IdChunkSmall <==> row_count
                < 100_000)
            &&& r matches Ok(StrategyChoice::Decided { strategy, .. }) ==> (strategy is IdChunkMedium <==> 100_000
                <= row_count <= 1_000_000)
        }),
{
}

} // verus!
