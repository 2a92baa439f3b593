//! Laws of the operations: what each gives for what it is given.

use vstd::prelude::*;

use crate::checksum;
use crate::checksum::{ChecksumManifest, TableDiffSummary};
use crate::chunk_strategy;
use crate::collections;
use crate::collections::{NameSet, TextMap};
use crate::comparison_laws;
use crate::config;
use crate::config::TablePair;
use crate::config_laws;
use crate::data_diff;
use crate::delete_sync;
use crate::delete_sync::{DeleteSetup, TableDeleteSync};
use crate::error::DataDiffError;
use crate::metadata;
use crate::metadata::{CatalogColumn, FkDependency};
use crate::outside;
use crate::report_laws;
use crate::row_laws;
use crate::schema_compare;
use crate::schema_compare::PgTable;
use crate::schema_laws;
use crate::single_file;
use crate::single_file::TableSql;
use crate::sql_gen;
use crate::sql_laws;
use crate::table_diff;
use crate::table_diff::{HashedKey, TableDataDiff};
use crate::table_laws;
use crate::text;
use crate::text_laws;
use crate::types;
use crate::types::{ColumnInfo, DiffReport, Field, PgType, Row, RowValue, SchemaComparisonResult};
use crate::value_laws;

verus! {

/// A column that both tables have, and that is not ignored, is told exactly where the values
/// differ; a null differs from every value, and from no other null.
pub proof fn modified_columns_have_other_values(
    ref_row: &Row,
    target_row: &Row,
    ref_columns: &[ColumnInfo],
    target_columns: &[ColumnInfo],
    ignore: &NameSet,
    r: Vec<usize>,
    i: usize,
    j: int,
)
    requires
        call_ensures(
            table_diff::find_modified_columns,
            (ref_row, target_row, ref_columns, target_columns, ignore),
            r,
        ),
        ref_columns@.len() <= usize::MAX,
        i < ref_columns@.len(),
    ensures
        row_laws::stands_at(target_columns@, ref_columns@[i as int].name@, j) && !ignore@.contains(
            outside::lowercase_text(ref_columns@[i as int].name@),
        ) ==> {
            &&& r@.contains(i) <==> !types::values_equal(ref_row@[i as int], target_row@[j])
            &&& ref_row@[i as int] is Null ==> (r@.contains(i) <==> !(target_row@[j] is Null))
            &&& target_row@[j] is Null ==> (r@.contains(i) <==> !(ref_row@[i as int] is Null))
        },
        row_laws::stands_nowhere(target_columns@, ref_columns@[i as int].name@) ==> !r@.contains(i),
        ignore@.contains(outside::lowercase_text(ref_columns@[i as int].name@)) ==> !r@.contains(i),
        forall|a: int, b: int| 0 <= a < b < r@.len() ==> #[trigger] r@[a] < #[trigger] r@[b],
        forall|a: int| 0 <= a < r@.len() ==> #[trigger] r@[a] < ref_columns@.len(),
{
    let name = ref_columns@[i as int].name@;
    row_laws::modified_columns_ascend(ref_row@, target_row@, ref_columns@, target_columns@, ignore@);
    if row_laws::stands_at(target_columns@, name, j) {
        row_laws::a_column_is_modified_where_its_values_differ(
            ref_row@,
            target_row@,
            ref_columns@,
            target_columns@,
            ignore@,
            i as int,
            j,
        );
        value_laws::values_of_two_kinds_are_not_equal(ref_row@[i as int], target_row@[j]);
    }
    row_laws::a_column_is_not_found_without_its_name(target_columns@, name);
    if row_laws::stands_nowhere(target_columns@, name) {
        row_laws::a_column_of_the_reference_alone_is_not_modified(
            ref_row@,
            target_row@,
            ref_columns@,
            target_columns@,
            ignore@,
            i as int,
        );
    } else {
        row_laws::a_column_is_modified_where_its_values_differ(
            ref_row@,
            target_row@,
            ref_columns@,
            target_columns@,
            ignore@,
            i as int,
            types::column_index(target_columns@, name),
        );
    }
}

/// The row that is found is the first whose key has the same value in every column of the key, and
/// none is found where there is none.
pub proof fn a_row_is_found_by_its_whole_key(
    target_rows: &[Row],
    target_columns: &[ColumnInfo],
    ref_row: &Row,
    ref_columns: &[ColumnInfo],
    pk_cols: &[ColumnInfo],
    r: Option<&Row>,
    ref_places: Seq<int>,
    target_places: Seq<int>,
    m: int,
)
    requires
        call_ensures(
            table_diff::find_row_by_pk,
            (target_rows, target_columns, ref_row, ref_columns, pk_cols),
            r,
        ),
        row_laws::keys_stand_at(ref_columns@, pk_cols@, ref_places),
        row_laws::keys_stand_at(target_columns@, pk_cols@, target_places),
    ensures
        row_laws::is_first_match(target_rows@, target_places, *ref_row, ref_places, m) ==> r == Some(
            &target_rows@[m],
        ),
        (forall|l: int|
            0 <= l < target_rows@.len() ==> row_laws::keys_differ(
                ref_row@,
                ref_places,
                (#[trigger] target_rows@[l])@,
                target_places,
            )) ==> r is None,
{
    let found = table_diff::match_index(target_rows@, target_columns@, ref_row@, ref_columns@, pk_cols@);
    table_diff::lemma_match_index(target_rows@, target_columns@, ref_row@, ref_columns@, pk_cols@);
    assert forall|l: int| 0 <= l < target_rows@.len() implies (table_diff::same_key(
        (#[trigger] target_rows@[l])@,
        target_columns@,
        ref_row@,
        ref_columns@,
        pk_cols@,
    ) <==> !row_laws::keys_differ(ref_row@, ref_places, target_rows@[l]@, target_places)) by {
        row_laws::a_key_is_the_same_in_every_column(
            target_rows@[l]@,
            target_columns@,
            ref_row@,
            ref_columns@,
            pk_cols@,
            ref_places,
            target_places,
        );
    }
    if row_laws::is_first_match(target_rows@, target_places, *ref_row, ref_places, m) {
        assert(target_rows@[m] == target_rows@[m]);
        if found < m {
            assert(row_laws::keys_differ(ref_row@, ref_places, target_rows@[found]@, target_places));
        }
    }
}

/// An update is written exactly where columns were modified. It sets all of them, and its condition
/// asks for every column of the key.
pub proof fn an_update_asks_for_every_column_of_the_key(
    table: &str,
    columns: &[ColumnInfo],
    pk_cols: &[ColumnInfo],
    row: &[RowValue],
    modified: &[usize],
    r: Option<String>,
    places: Seq<int>,
    conditions: Seq<Seq<char>>,
    set: Seq<Seq<char>>,
)
    requires
        call_ensures(sql_gen::generate_update, (table, columns, pk_cols, row, modified), r),
        sql_laws::ask_for_the_key(conditions, columns@, pk_cols@, row@, places),
        set.len() == modified@.len(),
        forall|j: int|
            0 <= j < modified@.len() ==> #[trigger] set[j] == sql_gen::quoted(columns@[modified@[j] as int].name@)
                + " = "@ + sql_gen::literal(row@[modified@[j] as int]),
    ensures
        modified@.len() == 0 ==> r is None,
        modified@.len() > 0 ==> r is Some && r->0@ == "UPDATE "@ + sql_gen::table_sql(table@) + " SET "@ + text::joined(
            set,
            ", "@,
        ) + " WHERE "@ + text::joined(conditions, " AND "@) + ";"@,
{
    sql_laws::an_update_is_found_by_the_whole_key(
        table@,
        columns@,
        pk_cols@,
        row@,
        modified@,
        places,
        conditions,
        set,
    );
}

/// The condition of a delete asks for every column of the key.
pub proof fn a_delete_asks_for_every_column_of_the_key(
    table: &str,
    columns: &[ColumnInfo],
    pk_cols: &[ColumnInfo],
    row: &[RowValue],
    r: String,
    places: Seq<int>,
    conditions: Seq<Seq<char>>,
)
    requires
        call_ensures(sql_gen::generate_delete, (table, columns, pk_cols, row), r),
        sql_laws::ask_for_the_key(conditions, columns@, pk_cols@, row@, places),
    ensures
        r@ == "DELETE FROM "@ + sql_gen::table_sql(table@) + " WHERE "@ + text::joined(conditions, " AND "@) + ";"@,
{
    sql_laws::a_delete_is_found_by_the_whole_key(table@, columns@, pk_cols@, row@, places, conditions);
}

/// An insert names every column that is not left out, whatever the case, and gives its value in the
/// same place.
pub proof fn an_insert_gives_every_column_its_value(
    table: &str,
    columns: &[ColumnInfo],
    row: &[RowValue],
    exclude: &NameSet,
    r: String,
    written: Seq<int>,
    names: Seq<Seq<char>>,
    values: Seq<Seq<char>>,
)
    requires
        call_ensures(sql_gen::generate_insert, (table, columns, row, exclude), r),
        forall|a: int, b: int| 0 <= a < b < written.len() ==> #[trigger] written[a] < #[trigger] written[b],
        forall|i: int| #[trigger]
            written.contains(i) <==> 0 <= i < columns@.len() && !exclude@.contains(
                outside::lowercase_text(columns@[i].name@),
            ),
        names.len() == written.len(),
        values.len() == written.len(),
        forall|a: int| 0 <= a < written.len() ==> #[trigger] names[a] == sql_gen::quoted(columns@[written[a]].name@),
        forall|a: int| 0 <= a < written.len() ==> #[trigger] values[a] == sql_gen::literal(row@[written[a]]),
    ensures
        r@ == "INSERT INTO "@ + sql_gen::table_sql(table@) + " ("@ + text::joined(names, ", "@) + ") VALUES ("@
            + text::joined(values, ", "@) + ");"@,
{
    sql_laws::an_insert_names_columns_and_values(table@, columns@, row@, exclude@, written, names, values);
}

/// Rows are hashed over all columns, and each hash comes with every column of the key, in whose
/// order they come.
pub proof fn hashes_come_with_every_column_of_the_key(
    table: &str,
    columns: &[ColumnInfo],
    pk_cols: &[ColumnInfo],
    range: Option<&str>,
    filter: Option<&str>,
    r: String,
    hashed: Seq<Seq<char>>,
    fetched: Seq<Seq<char>>,
    order: Seq<Seq<char>>,
)
    requires
        call_ensures(sql_gen::build_hash_query, (table, columns, pk_cols, range, filter), r),
        sql_laws::name_all(hashed, columns@),
        sql_laws::fetch_all(fetched, pk_cols@),
        sql_laws::name_all(order, pk_cols@),
    ensures
        r@ == "SELECT md5(ROW("@ + text::joined(hashed, ", "@) + ")::text), "@ + text::joined(fetched, ", "@)
            + " FROM "@ + sql_gen::table_sql(table@) + sql_laws::only_rows(
            chunk_strategy::text_of(range),
            chunk_strategy::text_of(filter),
        ) + " ORDER BY "@ + text::joined(order, ", "@),
{
    sql_laws::a_hash_comes_with_the_whole_key(
        table@,
        columns@,
        pk_cols@,
        chunk_strategy::text_of(range),
        chunk_strategy::text_of(filter),
        hashed,
        fetched,
        order,
    );
}

/// All columns of the rows of a chunk are fetched, in the order of the key.
pub proof fn the_rows_of_a_chunk_come_in_the_order_of_the_key(
    table: &str,
    columns: &[ColumnInfo],
    pk_cols: &[ColumnInfo],
    column: &str,
    filter: Option<&str>,
    r: String,
    fetched: Seq<Seq<char>>,
    order: Seq<Seq<char>>,
)
    requires
        call_ensures(sql_gen::build_range_rows_query, (table, columns, pk_cols, column, filter), r),
        sql_laws::fetch_all(fetched, columns@),
        sql_laws::name_all(order, pk_cols@),
    ensures
        r@ == "SELECT "@ + text::joined(fetched, ", "@) + " FROM "@ + sql_gen::table_sql(table@)
            + sql_laws::only_rows(Some(column@), chunk_strategy::text_of(filter)) + " ORDER BY "@ + text::joined(
            order,
            ", "@,
        ),
{
    sql_laws::the_rows_of_a_chunk_are_fetched_whole(
        table@,
        columns@,
        pk_cols@,
        column@,
        chunk_strategy::text_of(filter),
        fetched,
        order,
    );
}

/// Rows are looked up by their whole keys: by any of the rows, and of a row by every column of the
/// key.
pub proof fn rows_are_looked_up_by_their_whole_keys(
    table: &str,
    columns: &[ColumnInfo],
    row_columns: &[ColumnInfo],
    pk_cols: &[ColumnInfo],
    rows: &[Row],
    r: String,
    places: Seq<int>,
    conditions: Seq<Seq<Seq<char>>>,
    alternatives: Seq<Seq<char>>,
    fetched: Seq<Seq<char>>,
)
    requires
        call_ensures(sql_gen::build_lookup_query, (table, columns, row_columns, pk_cols, rows), r),
        sql_laws::ask_for_the_keys(conditions, row_columns@, pk_cols@, rows@, places),
        sql_laws::in_parentheses(alternatives, conditions),
        sql_laws::fetch_all(fetched, columns@),
    ensures
        r@ == "SELECT "@ + text::joined(fetched, ", "@) + " FROM "@ + sql_gen::table_sql(table@) + " WHERE "@
            + text::joined(alternatives, " OR "@),
{
    sql_laws::a_lookup_asks_for_each_whole_key(
        table@,
        columns@,
        row_columns@,
        pk_cols@,
        rows@,
        places,
        conditions,
        alternatives,
    );
    let names = Seq::new(columns@.len(), |i: int| sql_gen::quoted(columns@[i].name@));
    sql_laws::a_select_names_all_columns(table@, columns@, names, fetched);
}

/// Keys of the reference are looked up whole, among the rows that meet the condition.
pub proof fn keys_of_the_reference_are_looked_up_whole(
    table: &str,
    pk_cols: &[ColumnInfo],
    rows: &[Row],
    filter: Option<&str>,
    r: String,
    conditions: Seq<Seq<Seq<char>>>,
    alternatives: Seq<Seq<char>>,
    fetched: Seq<Seq<char>>,
)
    requires
        call_ensures(sql_gen::build_reference_keys_query, (table, pk_cols, rows, filter), r),
        sql_laws::ask_for_bare_keys(conditions, pk_cols@, rows@),
        sql_laws::in_parentheses(alternatives, conditions),
        sql_laws::fetch_all(fetched, pk_cols@),
    ensures
        filter is None ==> r@ == "SELECT "@ + text::joined(fetched, ", "@) + " FROM "@ + sql_gen::table_sql(table@)
            + " WHERE "@ + text::joined(alternatives, " OR "@),
        filter is Some ==> r@ == "SELECT "@ + text::joined(fetched, ", "@) + " FROM "@ + sql_gen::table_sql(table@) + (
        " WHERE ("@ + text::joined(alternatives, " OR "@) + ") AND ("@ + filter->0@ + ")"@),
{
    sql_laws::keys_are_looked_up_whole(
        table@,
        pk_cols@,
        rows@,
        chunk_strategy::text_of(filter),
        conditions,
        alternatives,
    );
    let names = Seq::new(pk_cols@.len(), |i: int| sql_gen::quoted(pk_cols@[i].name@));
    sql_laws::a_select_names_all_columns(table@, pk_cols@, names, fetched);
    if filter is None {
        assert(r@ =~= "SELECT "@ + text::joined(fetched, ", "@) + " FROM "@ + sql_gen::table_sql(table@) + " WHERE "@
            + text::joined(alternatives, " OR "@));
    }
}

/// A name is read back from the identifier that it is quoted as, and a text from its literal.
pub proof fn quoting_loses_nothing(name: &str, identifier: String, literal: String)
    requires
        call_ensures(sql_gen::quote_identifier, (name,), identifier),
        call_ensures(sql_gen::escape_string_literal, (name,), literal),
    ensures
        sql_gen::read_identifier(identifier@) == Some(name@),
        sql_gen::read_string(literal@) == Some(name@),
        identifier@[0] == '"' || identifier@ == name@,
{
    sql_gen::identifier_reads_back(name@);
    sql_gen::string_literal_reads_back(name@);
    sql_laws::identifiers_without_quotes_are_plain(name@);
}

/// A table matches where the target has every column of the reference with the same type, and else
/// it is excluded where that is asked for, and a mismatch where it is not.
pub proof fn a_table_matches_where_the_target_takes_its_rows(
    reference: &PgTable,
    target: &PgTable,
    is_excluded: bool,
    r: SchemaComparisonResult,
)
    requires
        call_ensures(schema_compare::compare_table_schema, (reference, target, is_excluded), r),
        reference.columns.valid(),
        target.columns.valid(),
    ensures
        ({
            let takes = forall|name: Seq<char>| #[trigger]
                reference.columns@.contains_key(name) ==> target.columns@.contains_key(name)
                    && reference.columns@[name]@ == target.columns@[name]@;
            let more = exists|name: Seq<char>| #[trigger]
                target.columns@.contains_key(name) && !reference.columns@.contains_key(name);
            &&& r is Match <==> takes && !more
            &&& r is TargetSuperset <==> takes && more
            &&& r is Mismatch <==> !takes && !is_excluded
            &&& r is Excluded <==> !takes && is_excluded
        }),
{
    schema_laws::the_target_has_to_take_the_rows_of_the_reference(*reference, *target);
    schema_laws::results_are_told_apart(r, r);
}

/// Each table of the reference, and no other, is compared with the table of the same name in the
/// target: it is a mismatch where the target lacks the table or one of its columns, or has a column
/// with another type, and the table is not excluded.
pub proof fn each_table_of_the_reference_is_compared_with_its_own(
    reference: &TextMap<PgTable>,
    target: &TextMap<PgTable>,
    exclude: &NameSet,
    r: TextMap<SchemaComparisonResult>,
    table: Seq<char>,
)
    requires
        call_ensures(schema_compare::compare_all_schemas, (reference, target, exclude), r),
        reference@.contains_key(table) ==> reference@[table].columns.valid(),
        target@.contains_key(table) ==> target@[table].columns.valid(),
    ensures
        r@.contains_key(table) <==> reference@.contains_key(table),
        reference@.contains_key(table) ==> {
            let excluded = exists|name: Seq<char>| #[trigger]
                exclude@.contains(name) && outside::lowercase_text(name) == outside::lowercase_text(table);
            let takes = target@.contains_key(table) && forall|name: Seq<char>| #[trigger]
                reference@[table].columns@.contains_key(name) ==> target@[table].columns@.contains_key(name)
                    && reference@[table].columns@[name]@ == target@[table].columns@[name]@;
            let more = target@.contains_key(table) && exists|name: Seq<char>| #[trigger]
                target@[table].columns@.contains_key(name) && !reference@[table].columns@.contains_key(name);
            &&& r@[table] is Mismatch <==> !takes && !excluded
            &&& r@[table] is Excluded <==> !takes && excluded
            &&& r@[table] is TargetSuperset <==> takes && more
            &&& r@[table] is Match <==> takes && !more
        },
{
    if reference@.contains_key(table) {
        assert(r@.contains_key(table));
        let excluded = schema_compare::excludes(exclude@, table);
        if exists|name: Seq<char>| #[trigger]
            exclude@.contains(name) && outside::lowercase_text(name) == outside::lowercase_text(table) {
            let name = choose|name: Seq<char>| #[trigger]
                exclude@.contains(name) && outside::lowercase_text(name) == outside::lowercase_text(table);
            schema_laws::tables_are_excluded_whatever_the_case(exclude@, table, name);
        }
        schema_laws::tables_are_excluded_whatever_the_case(exclude@, table, table);
        schema_laws::tables_are_skipped_that_the_target_cannot_take(
            table,
            reference@[table],
            target@,
            excluded,
        );
        if target@.contains_key(table) {
            schema_laws::the_target_has_to_take_the_rows_of_the_reference(reference@[table], target@[table]);
        }
        schema_laws::results_are_told_apart(r@[table], r@[table]);
    }
}

/// The keys that are looked into are those that the reference has, and that the target does not
/// have or has with another hash.
pub proof fn keys_with_other_hashes_are_told(
    reference: &[HashedKey],
    target: &[HashedKey],
    r: NameSet,
    hashes: TextMap<String>,
    target_hashes: TextMap<String>,
    k: Seq<char>,
)
    requires
        call_ensures(table_diff::find_differing_keys, (reference, target), r),
        call_ensures(table_diff::build_md5_map, (reference,), hashes),
        call_ensures(table_diff::build_md5_map, (target,), target_hashes),
    ensures
        r@.contains(k) <==> hashes@.contains_key(k) && (!target_hashes@.contains_key(k) || hashes@[k]@
            != target_hashes@[k]@),
{
    table_laws::keys_are_looked_into_where_hashes_differ(reference@, target@, k);
}

/// The columns left out of the statements are those that are asked for, with another key those of
/// the primary key where that is asked for, and the identity columns unless they are asked for.
pub proof fn columns_are_left_out_where_asked(
    diff: &TableDataDiff,
    columns: &[ColumnInfo],
    real_pk_names: &[String],
    r: NameSet,
    k: Seq<char>,
)
    requires
        call_ensures(TableDataDiff::build_exclude_set, (diff, columns, real_pk_names), r),
    ensures
        r@.contains(k) <==> {
            ||| diff.exclude_columns@.contains(k)
            ||| diff.exclude_real_pk && diff.alternate_keys is Some && exists|i: int|
                0 <= i < real_pk_names@.len() && outside::lowercase_text((#[trigger] real_pk_names@[i])@) == k
            ||| !(diff.include_identity_columns == Some(true)) && exists|i: int|
                0 <= i < columns@.len() && (#[trigger] columns@[i]).is_identity && outside::lowercase_text(
                    columns@[i].name@,
                ) == k
        },
{
    table_laws::inserts_leave_out_what_is_asked(*diff, columns@, real_pk_names@, k);
}

/// The columns that are not compared are those that are asked for, and the identity columns where
/// they are asked not to be taken.
pub proof fn columns_are_ignored_where_asked(
    diff: &TableDataDiff,
    columns: &[ColumnInfo],
    r: NameSet,
    k: Seq<char>,
)
    requires
        call_ensures(TableDataDiff::build_ignore_set, (diff, columns), r),
    ensures
        r@.contains(k) <==> {
            ||| diff.columns_to_ignore@.contains(k)
            ||| diff.include_identity_columns == Some(false) && exists|i: int|
                0 <= i < columns@.len() && (#[trigger] columns@[i]).is_identity && outside::lowercase_text(
                    columns@[i].name@,
                ) == k
        },
{
    table_laws::comparisons_ignore_what_is_asked(*diff, columns@, k);
}

/// Rows of the target are deleted exactly where every key of the reference has another value in
/// some column of the key, and each of them by its whole key.
pub proof fn rows_are_deleted_where_the_reference_lacks_their_keys(
    sync: &TableDeleteSync,
    setup: &DeleteSetup,
    target_rows: &[Row],
    ref_rows: &[Row],
    first: bool,
    r: (String, u64),
    i: int,
    conditions: Seq<Seq<char>>,
)
    requires
        call_ensures(TableDeleteSync::check_chunk, (sync, setup, target_rows, ref_rows, first), r),
        table_diff::distinct_names(setup.pk_cols@),
        0 <= i < target_rows@.len(),
        conditions.len() == setup.pk_cols@.len(),
        forall|k: int|
            0 <= k < setup.pk_cols@.len() ==> sql_laws::asks_for(
                #[trigger] conditions[k],
                setup.pk_cols@[k].name@,
                target_rows@[i]@[k],
            ),
    ensures
        r.1 > 0 <==> exists|m: int|
            0 <= m < target_rows@.len() && row_laws::differs_from_all(
                #[trigger] target_rows@[m],
                ref_rows@,
                setup.pk_cols@.len() as int,
            ),
        row_laws::differs_from_all(target_rows@[i], ref_rows@, setup.pk_cols@.len() as int) ==> text::has_part(
            r.0@,
            "DELETE FROM "@ + sql_gen::table_sql(sync.target_table@) + " WHERE "@ + text::joined(conditions, " AND "@)
                + ";"@,
        ),
        r.1 == 0 ==> r.0@.len() == 0,
{
    let n = setup.pk_cols@.len() as int;
    let deleted = delete_sync::deleted_rows(target_rows@, ref_rows@, n);
    let statements = delete_sync::delete_statements(sync.target_table@, setup.pk_cols@, deleted);
    assert forall|m: int| 0 <= m < target_rows@.len() implies (row_laws::differs_from_all(
        #[trigger] target_rows@[m],
        ref_rows@,
        n,
    ) <==> deleted.contains(target_rows@[m])) by {
        assert(target_rows@.contains(target_rows@[m]));
        lemma_deleted(target_rows@, ref_rows@, n, target_rows@[m]);
    }
    if deleted.len() > 0 {
        assert(deleted.contains(deleted[0]));
        lemma_deleted(target_rows@, ref_rows@, n, deleted[0]);
        let m = target_rows@.index_of(deleted[0]);
        assert(row_laws::differs_from_all(target_rows@[m], ref_rows@, n));
    }
    if row_laws::differs_from_all(target_rows@[i], ref_rows@, n) {
        let at = deleted.index_of(target_rows@[i]);
        table_laws::each_deleted_key_gets_a_statement(
            sync.target_table@,
            setup.pk_cols@,
            deleted,
            at,
            conditions,
        );
        a_script_has_each_statement(delete_sync::delete_header(sync.target_table@), statements, "\n"@, first, at);
    }
}

proof fn lemma_deleted(target_rows: Seq<Row>, ref_rows: Seq<Row>, n: int, row: Row)
    ensures
        delete_sync::deleted_rows(target_rows, ref_rows, n).contains(row) <==> target_rows.contains(row)
            && row_laws::differs_from_all(row, ref_rows, n),
{
    row_laws::a_key_is_deleted_where_every_key_of_the_reference_differs(target_rows, ref_rows, n, row);
    if row_laws::differs_from_all(row, ref_rows, n) {
        assert forall|j: int| 0 <= j < ref_rows.len() implies exists|i: int|
            0 <= i < n && !types::values_equal(#[trigger] row@[i], (#[trigger] ref_rows[j])@[i]) by {
            assert(row_laws::differ(row, ref_rows[j], n));
        }
    }
}

proof fn lemma_lines_have(statements: Seq<Seq<char>>, ending: Seq<char>, i: int) -> (parts: (Seq<char>, Seq<char>))
    requires
        0 <= i < statements.len(),
    ensures
        table_diff::lines(statements, ending) == parts.0 + statements[i] + parts.1,
    decreases statements.len(),
{
    let before = statements.drop_last();
    if i == statements.len() - 1 {
        let parts = (table_diff::lines(before, ending), ending);
        assert(table_diff::lines(statements, ending) =~= parts.0 + statements[i] + parts.1);
        parts
    } else {
        let less = lemma_lines_have(before, ending, i);
        let parts = (less.0, less.1 + (statements.last() + ending));
        assert(table_diff::lines(statements, ending) =~= parts.0 + statements[i] + parts.1);
        parts
    }
}

/// A script has each of its statements.
pub proof fn a_script_has_each_statement(head: Seq<char>, statements: Seq<Seq<char>>, ending: Seq<char>, first: bool, i: int)
    requires
        0 <= i < statements.len(),
    ensures
        text::has_part(table_diff::script(head, statements, ending, first), statements[i]),
{
    let parts = lemma_lines_have(statements, ending, i);
    let s = table_diff::script(head, statements, ending, first);
    let a = if first {
        head + parts.0
    } else {
        parts.0
    };
    assert(s =~= a + statements[i] + parts.1);
    text_laws::a_part_stands_in_the_text(a, statements[i], parts.1);
}

/// Of the two tables of a foreign key, the one that it refers to comes first where rows are inserted
/// and last where they are deleted, where no foreign keys go round in a circle. `level` shows that
/// they do not: it is lower for the table that is referred to.
pub proof fn tables_are_sorted_by_their_foreign_keys(
    tables: &[String],
    deps: &[FkDependency],
    inserts: Vec<String>,
    deletes: Vec<String>,
    level: spec_fn(Seq<char>) -> int,
    d: int,
    places: (int, int),
    delete_places: (int, int),
)
    requires
        call_ensures(metadata::sort_for_insert, (tables, deps), inserts),
        call_ensures(metadata::sort_for_delete, (tables, deps), deletes),
        forall|e: int|
            0 <= e < deps@.len() ==> level(outside::lowercase_text((#[trigger] deps@[e]).references_table@)) < level(
                outside::lowercase_text(deps@[e].table@),
            ),
        0 <= d < deps@.len(),
        0 <= places.0 < inserts@.len(),
        0 <= places.1 < inserts@.len(),
        outside::lowercase_text(inserts@[places.0]@) == outside::lowercase_text(deps@[d].references_table@),
        outside::lowercase_text(inserts@[places.1]@) == outside::lowercase_text(deps@[d].table@),
        0 <= delete_places.0 < deletes@.len(),
        0 <= delete_places.1 < deletes@.len(),
        outside::lowercase_text(deletes@[delete_places.0]@) == outside::lowercase_text(deps@[d].references_table@),
        outside::lowercase_text(deletes@[delete_places.1]@) == outside::lowercase_text(deps@[d].table@),
    ensures
        places.0 < places.1,
        delete_places.1 < delete_places.0,
{
    let order = metadata::insert_order(tables@, deps@);
    let n = order.len();
    assert(text::texts(inserts@).len() == inserts@.len());
    assert(text::texts(deletes@).len() == deletes@.len());
    assert(order[places.0] == text::texts(inserts@)[places.0]);
    assert(order[places.1] == text::texts(inserts@)[places.1]);
    assert(order.reverse()[delete_places.0] == text::texts(deletes@)[delete_places.0]);
    assert(order.reverse()[delete_places.1] == text::texts(deletes@)[delete_places.1]);
    metadata::a_foreign_key_puts_its_table_later(tables@, deps@, level, d, places.0, places.1);
    metadata::a_foreign_key_puts_its_table_later(
        tables@,
        deps@,
        level,
        d,
        n - 1 - delete_places.0,
        n - 1 - delete_places.1,
    );
}

/// A table is compared by the columns of the alternate key where one is given, and else by those of
/// the primary key, in the order of the table.
pub proof fn a_table_is_compared_by_its_key(
    columns: &[ColumnInfo],
    alternate_keys: Option<&[String]>,
    r: (Vec<ColumnInfo>, Vec<String>),
    places: Seq<int>,
    pk_places: Seq<int>,
)
    requires
        call_ensures(metadata::resolve_pk_columns, (columns, alternate_keys), r),
        forall|a: int, b: int| 0 <= a < b < places.len() ==> #[trigger] places[a] < #[trigger] places[b],
        forall|i: int| #[trigger]
            places.contains(i) <==> 0 <= i < columns@.len() && match alternate_keys {
                Some(keys) if keys@.len() > 0 => table_laws::is_named(keys@, columns@[i]),
                _ => columns@[i].is_pk,
            },
        forall|a: int, b: int| 0 <= a < b < pk_places.len() ==> #[trigger] pk_places[a] < #[trigger] pk_places[b],
        forall|i: int| #[trigger] pk_places.contains(i) <==> 0 <= i < columns@.len() && columns@[i].is_pk,
    ensures
        r.0@.len() == places.len(),
        forall|k: int| 0 <= k < places.len() ==> #[trigger] r.0@[k] == columns@[places[k]],
        r.1@.len() == pk_places.len(),
        forall|k: int| 0 <= k < pk_places.len() ==> (#[trigger] r.1@[k])@ == columns@[pk_places[k]].name@,
{
    let keys = metadata::list_of(alternate_keys);
    table_laws::a_key_has_all_of_its_columns(columns@, keys, places);
    table_laws::the_primary_key_is_told_by_name(columns@, pk_places);
    assert(text::texts(r.1@).len() == r.1@.len());
    assert forall|k: int| 0 <= k < pk_places.len() implies (#[trigger] r.1@[k])@ == columns@[pk_places[k]].name@ by {
        assert(text::texts(r.1@)[k] == r.1@[k]@);
    }
}

/// Each text gives a pair: the names before and after its first colon, or the same name twice where
/// it has none.
pub proof fn pairs_are_divided_at_the_first_colon(
    raw: &[String],
    r: Vec<TablePair>,
    i: int,
    reference: Seq<char>,
    target: Seq<char>,
)
    requires
        call_ensures(config::parse_table_pairs, (raw,), r),
        0 <= i < raw@.len(),
        !reference.contains(':'),
    ensures
        r@.len() == raw@.len(),
        raw@[i]@ == reference ==> r@[i].reference@ == reference && r@[i].target@ == reference,
        raw@[i]@ == reference + seq![':'] + target ==> r@[i].reference@ == reference && r@[i].target@ == target,
{
    config_laws::a_pair_is_divided_at_the_first_colon(reference, target);
    assert(r@[i].reference@ == config::pair_of(raw@[i]@).0);
}

/// Alternate keys are read where every text has a colon. The last text for a table stands, and its
/// key has the columns between the commas, without the white space around them.
pub proof fn alternate_keys_are_read_from_their_texts(
    raw: &[String],
    r: Result<TextMap<Vec<String>>, String>,
    i: int,
    table: Seq<char>,
    parts: Seq<Seq<char>>,
)
    requires
        call_ensures(config::parse_alternate_keys, (raw,), r),
        0 <= i < raw@.len(),
        !table.contains(':'),
        parts.len() > 0,
        forall|k: int| 0 <= k < parts.len() ==> !(#[trigger] parts[k]).contains(','),
    ensures
        raw@[i]@ == table ==> r is Err,
        i == raw@.len() - 1 && raw@[i]@ == table + seq![':'] + text::joined(parts, seq![',']) ==> (r matches Ok(map)
            ==> map@.contains_key(table) && map@[table]@.len() == parts.len() && forall|k: int|
            0 <= k < parts.len() ==> (#[trigger] map@[table]@[k])@ == text::trimmed(parts[k])),
{
    let columns = text::joined(parts, seq![',']);
    text_laws::a_text_is_divided_at_the_first(table, columns, ':');
    if let Ok(map) = r {
        if i == raw@.len() - 1 && raw@[i]@ == table + seq![':'] + columns {
            let texts = text::texts(raw@);
            let before = texts.drop_last();
            assert(texts =~= before.push(raw@[i]@));
            config_laws::the_last_alternate_key_of_a_table_stands(before, table, columns, table);
            config_laws::an_alternate_key_has_all_columns(table, parts);
            let list = map@[table]@;
            assert(map@.contains_key(table));
            assert(text::texts(list).len() == list.len());
            assert forall|k: int| 0 <= k < parts.len() implies (#[trigger] list[k])@ == text::trimmed(parts[k]) by {
                assert(text::texts(list)[k] == list[k]@);
            }
        }
    }
}

/// The columns of a table are those of the catalog, in its order: a column has the type of its name,
/// is of the key where a name of the key is its own, whatever the case, and is generated where it is
/// an identity column or takes the next value of a sequence. A table without columns is not found.
pub proof fn columns_are_those_of_the_catalog(
    table: &str,
    rows: &[CatalogColumn],
    pk_names: &[String],
    r: Result<Vec<ColumnInfo>, DataDiffError>,
    i: int,
)
    requires
        call_ensures(metadata::get_columns, (table, rows, pk_names), r),
    ensures
        r is Err <==> rows@.len() == 0,
        r matches Err(e) ==> e matches DataDiffError::TableNotFound(t) && t@ == table@,
        r matches Ok(columns) ==> columns@.len() == rows@.len() && (0 <= i < rows@.len() ==> {
            &&& columns@[i].name@ == rows@[i].column_name@
            &&& columns@[i].ordinal == i
            &&& columns@[i].is_pk <==> exists|k: int|
                0 <= k < pk_names@.len() && text::ascii_lower((#[trigger] pk_names@[k])@) == text::ascii_lower(
                    rows@[i].column_name@,
                )
            &&& rows@[i].is_identity@ == "YES"@ ==> columns@[i].is_identity
            &&& rows@[i].is_identity@ != "YES"@ && rows@[i].column_default is None ==> !columns@[i].is_identity
            &&& rows@[i].udt_name@ == "int4"@ ==> columns@[i].pg_type == PgType::Int4
            &&& rows@[i].udt_name@ == "numeric"@ ==> columns@[i].pg_type == PgType::Numeric
            &&& rows@[i].udt_name@ == "timestamptz"@ ==> columns@[i].pg_type == PgType::Timestamptz
        }),
{
    if let Ok(columns) = r {
        if 0 <= i < rows@.len() {
            assert(metadata::describes(columns@[i], rows@[i], pk_names@, i));
            value_laws::types_have_these_names(rows@[i].udt_name@);
        }
    }
}

/// A column is found by its name, whatever the case, and the first of that name is.
pub proof fn the_first_column_of_a_name_is_found(
    columns: &[ColumnInfo],
    name: &str,
    r: Option<usize>,
    place: int,
)
    requires
        call_ensures(types::find_column, (columns, name), r),
    ensures
        row_laws::stands_at(columns@, name@, place) ==> r is Some && r->0 == place,
        row_laws::stands_nowhere(columns@, name@) <==> r is None,
{
    row_laws::a_column_is_not_found_without_its_name(columns@, name@);
    types::lemma_column_index(columns@, name@);
    if row_laws::stands_at(columns@, name@, place) {
        row_laws::a_column_is_found_by_its_name(columns@, name@, place);
    }
}

/// A row has a value for each column, which is null exactly where the field does not hold a value
/// that fits the type of the column.
pub proof fn a_row_has_what_its_fields_hold(fields: Vec<Field>, columns: &[ColumnInfo], r: Row, i: int)
    requires
        call_ensures(types::extract_row, (fields, columns), r),
        0 <= i < columns@.len(),
    ensures
        r@.len() == columns@.len(),
        r@[i] is Null <==> value_laws::kind_of_field(fields@[i]) != Some(types::kind_of_type(columns@[i].pg_type)),
        fields@[i] is Null ==> r@[i] is Null,
        columns@[i].pg_type == PgType::Int4 ==> (fields@[i] matches Field::I32(v) ==> r@[i] == RowValue::I32(v)),
        columns@[i].pg_type == PgType::Bool ==> (fields@[i] matches Field::Bool(v) ==> r@[i] == RowValue::Bool(v)),
        columns@[i].pg_type == PgType::Text ==> (fields@[i] matches Field::Text(v) ==> r@[i] == RowValue::Text(v)),
        columns@[i].pg_type == PgType::Numeric ==> (fields@[i] matches Field::Text(v) ==> r@[i] == RowValue::Numeric(
            v,
        )),
{
    value_laws::a_row_is_read_column_by_column(fields@, columns@, i);
    value_laws::a_value_is_what_was_read(fields@[i], columns@[i].pg_type);
    value_laws::kinds_are_read_for_their_types(columns@[i].pg_type);
}

/// A null is the same as a null alone, and values of two kinds are never the same.
pub proof fn a_null_is_the_same_as_a_null_alone(a: &RowValue, b: &RowValue, r: bool)
    requires
        call_ensures(RowValue::same, (a, b), r),
    ensures
        a is Null ==> (r <==> b is Null),
        r ==> value_laws::kind(*a) == value_laws::kind(*b),
        a matches RowValue::Text(x) ==> (b matches RowValue::Text(y) ==> (r <==> x@ == y@)),
        a matches RowValue::I64(x) ==> (b matches RowValue::I64(y) ==> (r <==> x == y)),
        a matches RowValue::Numeric(x) ==> (b matches RowValue::Numeric(y) ==> (r <==> x@ == y@)),
{
    value_laws::values_of_two_kinds_are_not_equal(*a, *b);
    value_laws::values_of_one_kind_are_equal_where_they_hold_the_same();
    if let RowValue::Text(x) = *a {
        if let RowValue::Text(y) = *b {
            assert(types::values_equal(RowValue::Text(x), RowValue::Text(y)) <==> x@ == y@);
        }
    }
    if let RowValue::Numeric(x) = *a {
        if let RowValue::Numeric(y) = *b {
            assert(types::values_equal(RowValue::Numeric(x), RowValue::Numeric(y)) <==> x@ == y@);
        }
    }
}

/// The rows that are kept are those whose keys are asked for.
pub proof fn rows_with_the_keys_asked_for_are_kept(
    rows: Vec<Row>,
    columns: &[ColumnInfo],
    pk_cols: &[ColumnInfo],
    keys: &NameSet,
    r: Vec<Row>,
    row: &Row,
    key: String,
)
    requires
        call_ensures(table_diff::rows_with_keys, (rows, columns, pk_cols, keys), r),
        call_ensures(table_diff::row_pk_key, (row, columns, pk_cols), key),
    ensures
        r@.contains(*row) <==> rows@.contains(*row) && keys@.contains(key@),
{
    collections::lemma_filter_has(rows@, table_diff::has_key_in(columns@, pk_cols@, keys@), *row);
}

/// The key of a row is that of its values in the columns of the key.
pub proof fn the_key_of_a_row_is_that_of_its_values(
    row: &Row,
    columns: &[ColumnInfo],
    pk_cols: &[ColumnInfo],
    r: String,
    values: &[RowValue],
    key: String,
    places: Seq<int>,
)
    requires
        call_ensures(table_diff::row_pk_key, (row, columns, pk_cols), r),
        call_ensures(table_diff::values_key, (values,), key),
        row_laws::keys_stand_at(columns@, pk_cols@, places),
        values@.len() == pk_cols@.len(),
        forall|k: int| 0 <= k < pk_cols@.len() ==> #[trigger] values@[k] == row@[places[k]],
    ensures
        r@ == key@,
{
    let texts = Seq::new(values@.len(), |k: int| table_diff::key_text(values@[k]));
    table_laws::a_row_key_has_all_of_its_values(row@, columns@, pk_cols@, places, values@, texts);
}

/// A master script names every table and tells every warning, and runs the scripts of the tables.
pub proof fn a_master_script_has_everything(
    report: &DiffReport,
    inserts: &[usize],
    deletes: &[usize],
    with_deletes: bool,
    r: String,
    i: int,
)
    requires
        call_ensures(data_diff::write_master_script, (report, inserts, deletes, with_deletes), r),
    ensures
        0 <= i < report.tables@.len() ==> text::has_part(r@, "-- "@ + report.tables@[i].table_name@),
        0 <= i < report.warnings@.len() ==> text::has_part(r@, "-- "@ + report.warnings@[i]@),
        0 <= i < inserts@.len() ==> {
            let t = report.tables@[inserts@[i] as int];
            &&& t.insert_file matches Some(f) ==> text::has_part(r@, "\\i '"@ + f@ + "'"@)
            &&& t.update_file matches Some(f) ==> text::has_part(r@, "\\i '"@ + f@ + "'"@)
        },
        with_deletes && 0 <= i < deletes@.len() ==> (report.tables@[deletes@[i] as int].delete_file matches Some(f)
            ==> text::has_part(r@, "\\i '"@ + f@ + "'"@)),
{
    let lines = data_diff::master_lines(*report, inserts@, deletes@, with_deletes);
    report_laws::the_master_script_tells_tables_and_warnings(*report, inserts@, deletes@, with_deletes, i);
    if 0 <= i < report.tables@.len() {
        lemma_line_of(lines, "-- "@ + report.tables@[i].table_name@);
    }
    if 0 <= i < report.warnings@.len() {
        lemma_line_of(lines, "-- "@ + report.warnings@[i]@);
    }
    if 0 <= i < inserts@.len() {
        report_laws::the_master_script_runs_changes_table_by_table(*report, inserts@, deletes@, with_deletes, i);
        let t = report.tables@[inserts@[i] as int];
        let insert = data_diff::script_line(t.insert_file, "INSERT"@, t.table_name@);
        let update = data_diff::script_line(t.update_file, "UPDATE"@, t.table_name@);
        report_laws::scripts_are_run_by_their_files(t.insert_file, "INSERT"@, t.table_name@);
        report_laws::scripts_are_run_by_their_files(t.update_file, "UPDATE"@, t.table_name@);
        let l = choose|l: int| 0 <= l < lines.len() - 1 && #[trigger] lines[l] == insert && lines[l + 1] == update;
        assert(lines.contains(lines[l]) && lines.contains(lines[l + 1]));
        lemma_line_of(lines, insert);
        lemma_line_of(lines, update);
    }
    if with_deletes && 0 <= i < deletes@.len() {
        report_laws::the_master_script_runs_deletes_where_asked(*report, inserts@, deletes@, i);
        let t = report.tables@[deletes@[i] as int];
        report_laws::scripts_are_run_by_their_files(t.delete_file, "DELETE"@, t.table_name@);
        lemma_line_of(lines, data_diff::script_line(t.delete_file, "DELETE"@, t.table_name@));
    }
}

proof fn lemma_line_of(lines: Seq<Seq<char>>, line: Seq<char>)
    requires
        lines.contains(line),
    ensures
        text::has_part(table_diff::lines(lines, "\n"@), line),
{
    let i = lines.index_of(line);
    let parts = lemma_lines_have(lines, "\n"@, i);
    text_laws::a_part_stands_in_the_text(parts.0, lines[i], parts.1);
}

/// A single file has the inserts, updates and deletes of each table that is written.
pub proof fn a_single_file_has_every_table(
    tables: &[TableSql],
    inserts: &[usize],
    deletes: &[usize],
    r: String,
    i: int,
)
    requires
        call_ensures(single_file::write_single_file, (tables, inserts, deletes), r),
    ensures
        0 <= i < inserts@.len() ==> text::has_part(
            r@,
            tables@[inserts@[i] as int].inserts@ + tables@[inserts@[i] as int].updates@,
        ),
        0 <= i < deletes@.len() ==> text::has_part(r@, tables@[deletes@[i] as int].deletes@),
{
    let changes = single_file::all_changes(tables@, inserts@);
    let dropped = single_file::all_deletes(tables@, deletes@);
    if 0 <= i < inserts@.len() {
        let t = tables@[inserts@[i] as int];
        single_file::a_single_file_holds_each_table(tables@, inserts@, i);
        let a = single_file::all_changes(tables@, inserts@.take(i));
        let b = single_file::all_changes(tables@, inserts@.skip(i + 1)) + dropped;
        assert(r@ =~= a + (t.inserts@ + t.updates@) + b);
        text_laws::a_part_stands_in_the_text(a, t.inserts@ + t.updates@, b);
    }
    if 0 <= i < deletes@.len() {
        let t = tables@[deletes@[i] as int];
        single_file::a_single_file_holds_each_table(tables@, deletes@, i);
        let a = changes + single_file::all_deletes(tables@, deletes@.take(i));
        let b = single_file::all_deletes(tables@, deletes@.skip(i + 1));
        assert(r@ =~= a + t.deletes@ + b);
        text_laws::a_part_stands_in_the_text(a, t.deletes@, b);
    }
}

/// A table of the reference is summed up exactly where the target lacks it, or where some row of one
/// of its chunks is not in the target, is in the target alone or has another hash there, or one of
/// the two has a chunk that the other lacks.
pub proof fn tables_that_differ_are_summed_up(
    reference: &ChecksumManifest,
    target: &ChecksumManifest,
    r: Vec<TableDiffSummary>,
    i: int,
)
    requires
        call_ensures(checksum::compare_checksums, (reference, target), r),
        checksum::tables_valid(reference.tables@),
        checksum::tables_valid(target.tables@),
        0 <= i < reference.tables@.len(),
    ensures
        ({
            let table = reference.tables@[i];
            let lacking = forall|j: int|
                0 <= j < target.tables@.len() ==> (#[trigger] target.tables@[j]).table_name@ != table.table_name@;
            let differs = exists|j: int|
                0 <= j < target.tables@.len() && (#[trigger] target.tables@[j]).table_name@ == table.table_name@
                    && !checksum::same_contents(table.chunks@, target.tables@[j].chunks@);
            (exists|k: int| 0 <= k < r@.len() && (#[trigger] r@[k]).table_name@ == table.table_name@) <==> lacking
                || differs
        }),
{
    let table = reference.tables@[i];
    let name = table.table_name@;
    let views = checksum::summary_views(r@);
    assert(views.len() == r@.len());
    if checksum::table_summary(table, target.tables@) is Some {
        let s = checksum::table_summary(table, target.tables@)->0;
        comparison_laws::summaries_are_those_of_tables(reference.tables@, target.tables@, s);
        assert(views.contains(s));
        let k = views.index_of(s);
        assert(r@[k].table_name@ == name);
    }
    if exists|k: int| 0 <= k < r@.len() && (#[trigger] r@[k]).table_name@ == name {
        let k = choose|k: int| 0 <= k < r@.len() && (#[trigger] r@[k]).table_name@ == name;
        let s = views[k];
        assert(views.contains(s));
        comparison_laws::summaries_are_those_of_tables(reference.tables@, target.tables@, s);
        let h = choose|h: int|
            0 <= h < reference.tables@.len() && checksum::table_summary(
                #[trigger] reference.tables@[h],
                target.tables@,
            ) == Some(s);
        assert(s.table_name == name);
        assert(reference.tables@[h].table_name@ == name);
        assert(h == i);
    }
    if forall|j: int| 0 <= j < target.tables@.len() ==> (#[trigger] target.tables@[j]).table_name@ != name {
        report_laws::a_table_that_the_target_lacks_is_missing_whole(table, target.tables@, 0);
    } else {
        let j = choose|j: int| 0 <= j < target.tables@.len() && (#[trigger] target.tables@[j]).table_name@ == name;
        checksum::lemma_unique_table(target.tables@, target.tables@.len() as int, j);
        assert(target.tables@.take(target.tables@.len() as int) =~= target.tables@);
        checksum::summary_is_absent_where_nothing_differs(table, target.tables@);
        assert forall|l: int|
            0 <= l < target.tables@.len() && (#[trigger] target.tables@[l]).table_name@ == name implies l == j by {}
    }
}

} // verus!
