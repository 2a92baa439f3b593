//! Laws of SQL statements: what each of them names, sets, asks for and is found by.

use vstd::prelude::*;

use crate::chunk_strategy;
use crate::collections;
use crate::estimation;
use crate::instant;
use crate::outside;
use crate::row_keys;
use crate::row_laws;
use crate::sql_gen;
use crate::table_diff;
use crate::table_diff::{TableDataDiff, TableSetup};
use crate::text;
use crate::text_laws;
use crate::types;
use crate::types::{ColumnInfo, Row, RowValue};

verus! {

/// Whether a text is the condition that a column has a value, which for a null is that it is one.
pub open spec fn asks_for(condition: Seq<char>, name: Seq<char>, value: RowValue) -> bool {
    condition == match value {
        RowValue::Null => sql_gen::quoted(name) + " IS NULL"@,
        _ => sql_gen::quoted(name) + " = "@ + sql_gen::literal(value),
    }
}

/// Whether conditions ask for all of a key: there is one for each key column, and it asks for the
/// value that the row has in that column.
pub open spec fn ask_for_the_key(
    conditions: Seq<Seq<char>>,
    columns: Seq<ColumnInfo>,
    pk_cols: Seq<ColumnInfo>,
    row: Seq<RowValue>,
    places: Seq<int>,
) -> bool {
    &&& row_laws::keys_stand_at(columns, pk_cols, places)
    &&& conditions.len() == pk_cols.len()
    &&& forall|k: int|
        0 <= k < pk_cols.len() ==> asks_for(#[trigger] conditions[k], pk_cols[k].name@, row[places[k]])
}

proof fn lemma_key_condition(
    columns: Seq<ColumnInfo>,
    pk_cols: Seq<ColumnInfo>,
    row: Seq<RowValue>,
    places: Seq<int>,
    conditions: Seq<Seq<char>>,
)
    requires
        ask_for_the_key(conditions, columns, pk_cols, row, places),
    ensures
        sql_gen::key_condition(columns, pk_cols, row) == text::joined(conditions, " AND "@),
{
    let all = sql_gen::conditions(pk_cols, sql_gen::key_values(columns, pk_cols, row));
    assert forall|k: int| 0 <= k < pk_cols.len() implies #[trigger] all[k] == conditions[k] by {
        row_laws::a_column_is_found_by_its_name(columns, pk_cols[k].name@, places[k]);
        assert(asks_for(conditions[k], pk_cols[k].name@, row[places[k]]));
    }
    assert(all =~= conditions);
}

/// An UPDATE sets the columns that are given, each to the value of the row, and is found by the
/// whole key: for each key column there is a condition that it has the value of the row, and all
/// of these have to hold.
pub proof fn an_update_is_found_by_the_whole_key(
    table: Seq<char>,
    columns: Seq<ColumnInfo>,
    pk_cols: Seq<ColumnInfo>,
    row: Seq<RowValue>,
    modified: Seq<usize>,
    places: Seq<int>,
    conditions: Seq<Seq<char>>,
    set: Seq<Seq<char>>,
)
    requires
        ask_for_the_key(conditions, columns, pk_cols, row, places),
        set.len() == modified.len(),
        forall|j: int|
            0 <= j < modified.len() ==> #[trigger] set[j] == sql_gen::quoted(columns[modified[j] as int].name@)
                + " = "@ + sql_gen::literal(row[modified[j] as int]),
    ensures
        sql_gen::update_statement(table, columns, pk_cols, row, modified) == "UPDATE "@ + sql_gen::table_sql(table)
            + " SET "@ + text::joined(set, ", "@) + " WHERE "@ + text::joined(conditions, " AND "@) + ";"@,
{
    lemma_key_condition(columns, pk_cols, row, places, conditions);
    assert(modified.map_values(
        |i: usize| sql_gen::quoted(columns[i as int].name@) + " = "@ + sql_gen::literal(row[i as int]),
    ) =~= set);
}

/// One more key column narrows an UPDATE by one more condition, and changes nothing else of it.
pub proof fn a_key_column_more_narrows_an_update(
    table: Seq<char>,
    columns: Seq<ColumnInfo>,
    pk_cols: Seq<ColumnInfo>,
    column: ColumnInfo,
    row: Seq<RowValue>,
    modified: Seq<usize>,
    place: int,
    condition: Seq<char>,
)
    requires
        pk_cols.len() > 0,
        row_laws::stands_at(columns, column.name@, place),
        asks_for(condition, column.name@, row[place]),
    ensures
        sql_gen::update_statement(table, columns, pk_cols.push(column), row, modified) == sql_gen::update_statement(
            table,
            columns,
            pk_cols,
            row,
            modified,
        ).drop_last() + " AND "@ + condition + ";"@,
        sql_gen::delete_statement(table, columns, pk_cols.push(column), row) == sql_gen::delete_statement(
            table,
            columns,
            pk_cols,
            row,
        ).drop_last() + " AND "@ + condition + ";"@,
{
    reveal_strlit(";");
    row_laws::a_column_is_found_by_its_name(columns, column.name@, place);
    let less = sql_gen::conditions(pk_cols, sql_gen::key_values(columns, pk_cols, row));
    let more = sql_gen::conditions(
        pk_cols.push(column),
        sql_gen::key_values(columns, pk_cols.push(column), row),
    );
    assert(more =~= less + seq![condition]);
    text_laws::joining_puts_the_separator_between(less, seq![condition], condition, " AND "@);
    let head = "UPDATE "@ + sql_gen::table_sql(table) + " SET "@ + text::joined(
        modified.map_values(
            |i: usize| sql_gen::quoted(columns[i as int].name@) + " = "@ + sql_gen::literal(row[i as int]),
        ),
        ", "@,
    ) + " WHERE "@;
    let start = "DELETE FROM "@ + sql_gen::table_sql(table) + " WHERE "@;
    let x = text::joined(less, " AND "@);
    assert((head + x + ";"@).drop_last() =~= head + x);
    assert((start + x + ";"@).drop_last() =~= start + x);
    assert(head + (x + " AND "@ + condition) + ";"@ =~= head + x + " AND "@ + condition + ";"@);
    assert(start + (x + " AND "@ + condition) + ";"@ =~= start + x + " AND "@ + condition + ";"@);
}

/// A DELETE is found by the whole key.
pub proof fn a_delete_is_found_by_the_whole_key(
    table: Seq<char>,
    columns: Seq<ColumnInfo>,
    pk_cols: Seq<ColumnInfo>,
    row: Seq<RowValue>,
    places: Seq<int>,
    conditions: Seq<Seq<char>>,
)
    requires
        ask_for_the_key(conditions, columns, pk_cols, row, places),
    ensures
        sql_gen::delete_statement(table, columns, pk_cols, row) == "DELETE FROM "@ + sql_gen::table_sql(table)
            + " WHERE "@ + text::joined(conditions, " AND "@) + ";"@,
{
    lemma_key_condition(columns, pk_cols, row, places, conditions);
}

/// An INSERT names the columns whose lowercase names are not left out, each once and in the order
/// of the table, and has for each of them the value of the row.
pub proof fn an_insert_names_columns_and_values(
    table: Seq<char>,
    columns: Seq<ColumnInfo>,
    row: Seq<RowValue>,
    exclude: Set<Seq<char>>,
    written: Seq<int>,
    names: Seq<Seq<char>>,
    values: Seq<Seq<char>>,
)
    requires
        forall|a: int, b: int| 0 <= a < b < written.len() ==> #[trigger] written[a] < #[trigger] written[b],
        forall|i: int| #[trigger]
            written.contains(i) <==> 0 <= i < columns.len() && !exclude.contains(
                outside::lowercase_text(columns[i].name@),
            ),
        names.len() == written.len(),
        values.len() == written.len(),
        forall|a: int| 0 <= a < written.len() ==> #[trigger] names[a] == sql_gen::quoted(columns[written[a]].name@),
        forall|a: int| 0 <= a < written.len() ==> #[trigger] values[a] == sql_gen::literal(row[written[a]]),
    ensures
        sql_gen::insert_statement(table, columns, row, exclude) == "INSERT INTO "@ + sql_gen::table_sql(table) + " ("@
            + text::joined(names, ", "@) + ") VALUES ("@ + text::joined(values, ", "@) + ");"@,
{
    collections::lemma_picked_unique(columns.len(), sql_gen::is_written(columns, exclude), written);
    assert(written.map_values(|i: int| sql_gen::quoted(columns[i].name@)) =~= names);
    assert(written.map_values(|i: int| sql_gen::literal(row[i])) =~= values);
}

/// Whether texts are the names of columns as SQL has them, one for each column.
pub open spec fn name_all(names: Seq<Seq<char>>, columns: Seq<ColumnInfo>) -> bool {
    &&& names.len() == columns.len()
    &&& forall|i: int| 0 <= i < columns.len() ==> #[trigger] names[i] == sql_gen::quoted(columns[i].name@)
}

/// Whether texts are columns as they are fetched, one for each column: under their names, but for
/// numbers of arbitrary precision, which are fetched as texts under a name of their own.
pub open spec fn fetch_all(parts: Seq<Seq<char>>, columns: Seq<ColumnInfo>) -> bool {
    &&& parts.len() == columns.len()
    &&& forall|i: int|
        0 <= i < columns.len() ==> #[trigger] parts[i] == match columns[i].pg_type {
            types::PgType::Numeric => sql_gen::quoted(columns[i].name@) + "::text AS "@ + sql_gen::quoted(
                columns[i].name@ + " as text"@,
            ),
            _ => sql_gen::quoted(columns[i].name@),
        }
}

proof fn lemma_lists(columns: Seq<ColumnInfo>, names: Seq<Seq<char>>, parts: Seq<Seq<char>>)
    ensures
        name_all(names, columns) ==> sql_gen::name_list(columns) == text::joined(names, ", "@),
        fetch_all(parts, columns) ==> sql_gen::fetch_list(columns) == text::joined(parts, ", "@),
{
    if name_all(names, columns) {
        assert(sql_gen::quoted_names(columns) =~= names);
    }
    if fetch_all(parts, columns) {
        assert forall|i: int| 0 <= i < columns.len() implies sql_gen::fetched_columns(columns)[i]
            == #[trigger] parts[i] by {}
        assert(sql_gen::fetched_columns(columns) =~= parts);
    }
}

/// A SELECT names all columns that it is for, each once and in their order, and so does what is
/// fetched.
pub proof fn a_select_names_all_columns(
    table: Seq<char>,
    columns: Seq<ColumnInfo>,
    names: Seq<Seq<char>>,
    parts: Seq<Seq<char>>,
)
    requires
        name_all(names, columns),
        fetch_all(parts, columns),
    ensures
        sql_gen::select_statement(table, columns) == "SELECT "@ + text::joined(names, ", "@) + " FROM "@
            + sql_gen::table_sql(table),
        sql_gen::fetch_statement(table, columns) == "SELECT "@ + text::joined(parts, ", "@) + " FROM "@
            + sql_gen::table_sql(table),
{
    lemma_lists(columns, names, parts);
}

/// The condition that rows are in a range of a column, from the first parameter on and before the
/// second, and that a further condition holds of them, where there are such conditions.
pub open spec fn only_rows(range: Option<Seq<char>>, filter: Option<Seq<char>>) -> Seq<char> {
    let in_range = match range {
        Some(column) => seq![sql_gen::quoted(column) + " >= $1"@, sql_gen::quoted(column) + " < $2"@],
        None => Seq::empty(),
    };
    let met = match filter {
        Some(f) => seq!["("@ + f + ")"@],
        None => Seq::empty(),
    };
    let all = in_range + met;
    if all.len() == 0 {
        Seq::empty()
    } else {
        " WHERE "@ + text::joined(all, " AND "@)
    }
}

/// All conditions on rows have to hold, and a condition that was given stands in parentheses, so
/// that it holds as a whole whatever it is made of.
pub proof fn all_conditions_on_rows_have_to_hold(range: Option<Seq<char>>, filter: Option<Seq<char>>)
    ensures
        sql_gen::where_clause(range, filter) == only_rows(range, filter),
{
    reveal_strlit(" AND (");
    reveal_strlit(" AND ");
    reveal_strlit(" WHERE (");
    reveal_strlit(" WHERE ");
    reveal_strlit(" >= $1 AND ");
    reveal_strlit(" >= $1");
    reveal_strlit("(");
    reveal_strlit(")");
    let sep = " AND "@;
    if let Some(column) = range {
        let a = sql_gen::quoted(column) + " >= $1"@;
        let b = sql_gen::quoted(column) + " < $2"@;
        text_laws::joining_puts_the_separator_between(seq![a], seq![b], a, sep);
        text_laws::joining_puts_the_separator_between(seq![a], seq![b], b, sep);
        assert(seq![a, b] =~= seq![a] + seq![b]);
        assert(sql_gen::range_condition(column) =~= a + sep + b);
        if let Some(f) = filter {
            let met = "("@ + f + ")"@;
            text_laws::joining_puts_the_separator_between(seq![a, b], seq![met], met, sep);
            assert(sql_gen::where_clause(range, filter) =~= " WHERE "@ + (text::joined(seq![a, b], sep) + sep + met));
        } else {
            assert(seq![a, b] + Seq::<Seq<char>>::empty() =~= seq![a, b]);
        }
    } else if let Some(f) = filter {
        let met = "("@ + f + ")"@;
        text_laws::joining_puts_the_separator_between(Seq::empty(), Seq::empty(), met, sep);
        assert(Seq::<Seq<char>>::empty() + seq![met] =~= seq![met]);
        assert(sql_gen::where_clause(range, filter) =~= " WHERE "@ + met);
    }
}

/// A hash query hashes all columns, and selects after the hash every key column as it is fetched,
/// each once and in the order of the key, in which the rows come.
pub proof fn a_hash_comes_with_the_whole_key(
    table: Seq<char>,
    columns: Seq<ColumnInfo>,
    pk_cols: Seq<ColumnInfo>,
    range: Option<Seq<char>>,
    filter: Option<Seq<char>>,
    hashed: Seq<Seq<char>>,
    fetched: Seq<Seq<char>>,
    order: Seq<Seq<char>>,
)
    requires
        name_all(hashed, columns),
        fetch_all(fetched, pk_cols),
        name_all(order, pk_cols),
    ensures
        sql_gen::hash_statement(table, columns, pk_cols, range, filter) == "SELECT md5(ROW("@ + text::joined(
            hashed,
            ", "@,
        ) + ")::text), "@ + text::joined(fetched, ", "@) + " FROM "@ + sql_gen::table_sql(table) + only_rows(
            range,
            filter,
        ) + " ORDER BY "@ + text::joined(order, ", "@),
{
    lemma_lists(columns, hashed, hashed);
    lemma_lists(pk_cols, order, fetched);
    all_conditions_on_rows_have_to_hold(range, filter);
}

/// The rows of a chunk are fetched with all columns, those in the range and no others, in the
/// order of the key.
pub proof fn the_rows_of_a_chunk_are_fetched_whole(
    table: Seq<char>,
    columns: Seq<ColumnInfo>,
    pk_cols: Seq<ColumnInfo>,
    column: Seq<char>,
    filter: Option<Seq<char>>,
    fetched: Seq<Seq<char>>,
    order: Seq<Seq<char>>,
)
    requires
        fetch_all(fetched, columns),
        name_all(order, pk_cols),
    ensures
        sql_gen::range_rows_statement(table, columns, pk_cols, column, filter) == "SELECT "@ + text::joined(
            fetched,
            ", "@,
        ) + " FROM "@ + sql_gen::table_sql(table) + only_rows(Some(column), filter) + " ORDER BY "@ + text::joined(
            order,
            ", "@,
        ),
{
    lemma_lists(columns, fetched, fetched);
    lemma_lists(pk_cols, order, order);
    all_conditions_on_rows_have_to_hold(Some(column), filter);
}

/// Whether conditions ask for the keys of rows: for each row those for all of its key.
pub open spec fn ask_for_the_keys(
    conditions: Seq<Seq<Seq<char>>>,
    columns: Seq<ColumnInfo>,
    pk_cols: Seq<ColumnInfo>,
    rows: Seq<Row>,
    places: Seq<int>,
) -> bool {
    &&& conditions.len() == rows.len()
    &&& forall|r: int|
        0 <= r < rows.len() ==> ask_for_the_key(#[trigger] conditions[r], columns, pk_cols, rows[r]@, places)
}

/// Whether texts are conditions in parentheses, one for each row.
pub open spec fn in_parentheses(alternatives: Seq<Seq<char>>, conditions: Seq<Seq<Seq<char>>>) -> bool {
    &&& alternatives.len() == conditions.len()
    &&& forall|r: int|
        0 <= r < conditions.len() ==> #[trigger] alternatives[r] == "("@ + text::joined(conditions[r], " AND "@) + ")"@
}

/// A lookup asks for the rows that have one of the keys, each of which has to be met in all its
/// columns.
pub proof fn a_lookup_asks_for_each_whole_key(
    table: Seq<char>,
    columns: Seq<ColumnInfo>,
    row_columns: Seq<ColumnInfo>,
    pk_cols: Seq<ColumnInfo>,
    rows: Seq<Row>,
    places: Seq<int>,
    conditions: Seq<Seq<Seq<char>>>,
    alternatives: Seq<Seq<char>>,
)
    requires
        ask_for_the_keys(conditions, row_columns, pk_cols, rows, places),
        in_parentheses(alternatives, conditions),
    ensures
        sql_gen::fetch_by_key_statement(table, columns, sql_gen::row_conditions(row_columns, pk_cols, rows))
            == sql_gen::fetch_statement(table, columns) + " WHERE "@ + text::joined(alternatives, " OR "@),
        sql_gen::lookup_statement(table, columns, sql_gen::row_conditions(row_columns, pk_cols, rows))
            == sql_gen::select_statement(table, columns) + " WHERE "@ + text::joined(alternatives, " OR "@),
{
    let keys = sql_gen::row_conditions(row_columns, pk_cols, rows);
    assert forall|r: int| 0 <= r < rows.len() implies #[trigger] keys[r] == text::joined(
        conditions[r],
        " AND "@,
    ) by {
        lemma_key_condition(row_columns, pk_cols, rows[r]@, places, conditions[r]);
    }
    assert(keys.map_values(|k: Seq<char>| "("@ + k + ")"@) =~= alternatives);
}

/// Whether conditions ask for keys whose values stand in the order of the key columns.
pub open spec fn ask_for_bare_keys(
    conditions: Seq<Seq<Seq<char>>>,
    pk_cols: Seq<ColumnInfo>,
    rows: Seq<Row>,
) -> bool {
    &&& conditions.len() == rows.len()
    &&& forall|r: int| 0 <= r < rows.len() ==> (#[trigger] conditions[r]).len() == pk_cols.len()
    &&& forall|r: int, k: int|
        0 <= r < rows.len() && 0 <= k < pk_cols.len() ==> asks_for(
            #[trigger] conditions[r][k],
            pk_cols[k].name@,
            rows[r]@[k],
        )
}

/// The keys of the target are looked up in the reference whole, and where a condition is given it
/// has to hold besides, of whichever key.
pub proof fn keys_are_looked_up_whole(
    table: Seq<char>,
    pk_cols: Seq<ColumnInfo>,
    rows: Seq<Row>,
    filter: Option<Seq<char>>,
    conditions: Seq<Seq<Seq<char>>>,
    alternatives: Seq<Seq<char>>,
)
    requires
        ask_for_bare_keys(conditions, pk_cols, rows),
        in_parentheses(alternatives, conditions),
    ensures
        sql_gen::lookup_statement(table, pk_cols, sql_gen::bare_conditions(pk_cols, rows))
            == sql_gen::select_statement(table, pk_cols) + " WHERE "@ + text::joined(alternatives, " OR "@),
        sql_gen::reference_keys_statement(table, pk_cols, rows, filter) == sql_gen::fetch_statement(table, pk_cols)
            + match filter {
            Some(f) => " WHERE ("@ + text::joined(alternatives, " OR "@) + ") AND ("@ + f + ")"@,
            None => " WHERE "@ + text::joined(alternatives, " OR "@),
        },
{
    let keys = sql_gen::bare_conditions(pk_cols, rows);
    assert forall|r: int| 0 <= r < rows.len() implies #[trigger] keys[r] == text::joined(
        conditions[r],
        " AND "@,
    ) by {
        let all = sql_gen::conditions(pk_cols, rows[r]@);
        assert forall|k: int| 0 <= k < pk_cols.len() implies #[trigger] all[k] == conditions[r][k] by {
            assert(asks_for(conditions[r][k], pk_cols[k].name@, rows[r]@[k]));
        }
        assert(all =~= conditions[r]);
    }
    assert(keys.map_values(|k: Seq<char>| "("@ + k + ")"@) =~= alternatives);
    let select = sql_gen::fetch_statement(table, pk_cols);
    let any = text::joined(alternatives, " OR "@);
    if let Some(f) = filter {
        assert(select + " WHERE ("@ + any + ") AND ("@ + f + ")"@ =~= select + (" WHERE ("@ + any + ") AND ("@ + f
            + ")"@));
    } else {
        assert(select + " WHERE "@ + any =~= select + (" WHERE "@ + any));
    }
}

/// All rows of the reference are fetched with all columns, where no condition is given.
pub proof fn rows_are_retrieved_from_the_reference(
    diff: TableDataDiff,
    setup: TableSetup,
    fetched: Seq<Seq<char>>,
)
    requires
        fetch_all(fetched, setup.ref_columns@),
    ensures
        table_diff::retrieve_statement(diff, setup) == "SELECT "@ + text::joined(fetched, ", "@) + " FROM "@
            + sql_gen::table_sql(diff.ref_table@) + match diff.table_where {
            Some(w) => " WHERE "@ + w@,
            None => Seq::empty(),
        },
{
    lemma_lists(setup.ref_columns@, fetched, fetched);
    let select = sql_gen::fetch_statement(diff.ref_table@, setup.ref_columns@);
    if let Some(w) = diff.table_where {
        assert(select + " WHERE "@ + w@ =~= select + (" WHERE "@ + w@));
    } else {
        assert(select + Seq::<char>::empty() =~= select);
    }
}

/// The time of a strategy is measured on the hashes of all columns of the rows in the range.
pub proof fn an_estimate_hashes_all_columns(
    table: Seq<char>,
    columns: Seq<ColumnInfo>,
    column: Seq<char>,
    filter: Option<Seq<char>>,
    hashed: Seq<Seq<char>>,
)
    requires
        name_all(hashed, columns),
    ensures
        estimation::estimate_statement(table, columns, column, filter) == "SELECT md5(ROW("@ + text::joined(
            hashed,
            ", "@,
        ) + ")::text) FROM "@ + sql_gen::table_sql(table) + only_rows(Some(column), filter),
{
    lemma_lists(columns, hashed, hashed);
    all_conditions_on_rows_have_to_hold(Some(column), filter);
}

/// The range of a column is from its lowest to its highest value among the rows of which the
/// condition holds.
pub proof fn a_range_is_of_the_rows_that_meet_the_condition(
    table: Seq<char>,
    column: Seq<char>,
    filter: Option<Seq<char>>,
)
    ensures
        chunk_strategy::range_statement(table, column, filter) == "SELECT MIN("@ + sql_gen::quoted(column)
            + ")::timestamp, MAX("@ + sql_gen::quoted(column) + ")::timestamp FROM "@ + sql_gen::table_sql(table)
            + only_rows(None, filter),
{
    all_conditions_on_rows_have_to_hold(None, filter);
}

/// An identifier stands without quotes only where PostgreSQL reads it as it is: it starts with a
/// lowercase letter or an underscore, goes on with these and digits, and is no reserved word.
pub proof fn identifiers_without_quotes_are_plain(name: Seq<char>)
    ensures
        sql_gen::quoted(name).len() > 0,
        sql_gen::quoted(name)[0] == '"' || {
            &&& sql_gen::quoted(name) == name
            &&& 97 <= name[0] as int <= 122 || name[0] == '_'
            &&& forall|i: int|
                0 <= i < name.len() ==> 97 <= #[trigger] name[i] as int <= 122 || 48 <= name[i] as int <= 57 || name[i]
                    == '_'
            &&& !sql_gen::is_reserved(name)
        },
{
    reveal_strlit("\"");
    if !sql_gen::needs_quoting(name) {
        assert forall|i: int| 0 <= i < name.len() implies 97 <= #[trigger] name[i] as int <= 122 || 48 <= name[i] as int
            <= 57 || name[i] == '_' by {
            assert(sql_gen::is_plain(name[i]));
        }
        assert(sql_gen::is_plain(name[0]));
    }
}

/// A name is quoted only where it has to be.
pub proof fn plain_identifiers_stand_as_they_are(name: Seq<char>)
    requires
        name.len() > 0,
        97 <= name[0] as int <= 122 || name[0] == '_',
        forall|i: int|
            0 <= i < name.len() ==> 97 <= #[trigger] name[i] as int <= 122 || 48 <= name[i] as int <= 57 || name[i]
                == '_',
        !sql_gen::is_reserved(name),
    ensures
        sql_gen::quoted(name) == name,
{
    assert forall|i: int| 0 <= i < name.len() implies sql_gen::is_plain(#[trigger] name[i]) by {}
}

/// A table is named by its schema, where it has one, and its own name, which are quoted apart.
pub proof fn schema_and_table_are_quoted_apart(schema: Seq<char>, table: Seq<char>)
    requires
        !schema.contains('.'),
    ensures
        sql_gen::table_sql(schema) == sql_gen::quoted(schema),
        sql_gen::table_sql(schema + seq!['.'] + table) == sql_gen::quoted(schema) + seq!['.'] + sql_gen::quoted(table),
{
    reveal_strlit(".");
    text_laws::a_text_is_divided_at_the_first(schema, table, '.');
    assert("."@ =~= seq!['.']);
}

/// What bytes in hexadecimal stand for.
pub open spec fn read_bytes(s: Seq<char>) -> Seq<u8>
    decreases s.len(),
{
    if s.len() < 2 {
        Seq::empty()
    } else {
        read_bytes(s.take(s.len() - 2)).push(text_laws::read_hex(s.skip(s.len() - 2)) as u8)
    }
}

/// Bytes are read back from their hexadecimal digits, two for each.
pub proof fn bytes_read_back(bytes: Seq<u8>)
    ensures
        sql_gen::hex_bytes(bytes).len() == 2 * bytes.len(),
        read_bytes(sql_gen::hex_bytes(bytes)) == bytes,
    decreases bytes.len(),
{
    if bytes.len() > 0 {
        let less = bytes.drop_last();
        bytes_read_back(less);
        reveal_with_fuel(text_laws::hex_numbers, 3);
        text_laws::hex_reads_back(bytes.last() as nat, 2);
        let s = sql_gen::hex_bytes(bytes);
        assert(s.take(s.len() - 2) =~= sql_gen::hex_bytes(less));
        assert(s.skip(s.len() - 2) =~= types::hex(bytes.last() as nat, 2));
        assert(read_bytes(s) =~= bytes);
    } else {
        assert(read_bytes(sql_gen::hex_bytes(bytes)) =~= bytes);
    }
}

/// What a text in quotes with a cast after it stands for: the text, for the type.
pub open spec fn is_cast(sql: Seq<char>, s: Seq<char>, sql_type: Seq<char>) -> bool {
    sql == seq!['\''] + s + seq!['\'', ':', ':'] + sql_type
}

/// A literal stands for its value: a null and truth values for themselves, an integer by its
/// decimal digits, a text as a string literal, bytes by their hexadecimal digits, points in time
/// and UUIDs as texts with a cast to their type, and a number of arbitrary precision by its own
/// digits.
pub proof fn a_literal_stands_for_its_value(value: RowValue)
    ensures
        ({
            let sql = sql_gen::literal(value);
            match value {
                RowValue::Null => sql == "NULL"@,
                RowValue::Bool(b) => sql == if b {
                    "TRUE"@
                } else {
                    "FALSE"@
                },
                RowValue::I16(v) => v >= 0 ==> text_laws::read_decimal(sql) == v,
                RowValue::I32(v) => v >= 0 ==> text_laws::read_decimal(sql) == v,
                RowValue::I64(v) => v >= 0 ==> text_laws::read_decimal(sql) == v,
                RowValue::Text(s) => sql_gen::read_string(sql) == Some(s@),
                RowValue::Bytes(b) => {
                    &&& sql.len() == 4 + 2 * b@.len()
                    &&& sql[0] == '\'' && sql[1] == '\\' && sql[2] == 'x' && sql.last() == '\''
                    &&& read_bytes(sql.subrange(3, sql.len() - 1)) == b@
                },
                RowValue::Timestamp(t) => is_cast(
                    sql,
                    instant::timestamp_text(t.secs(), t.nanos() as nat, ' '),
                    "timestamp"@,
                ),
                RowValue::TimestampTz(t) => is_cast(
                    sql,
                    instant::timestamp_text(t.secs(), t.nanos() as nat, ' ') + seq!['+', '0', '0', ':', '0', '0'],
                    "timestamptz"@,
                ),
                RowValue::Date(d) => is_cast(sql, instant::date_text(d.day_number()), "date"@),
                RowValue::Time(t) => is_cast(
                    sql,
                    instant::clock_text(t.secs() as nat, t.nanos() as nat),
                    "time"@,
                ),
                RowValue::Uuid(u) => is_cast(sql, types::uuid_text(u), "uuid"@),
                RowValue::Numeric(v) => sql == v@,
                RowValue::Json(j) => exists|body: Seq<char>|
                    sql == #[trigger] (body + "::jsonb"@) && sql_gen::read_string(body) == Some(
                        outside::json_compact(j@),
                    ),
                _ => true,
            }
        }),
        row_keys::integer_of(value) matches Some(v) ==> v < 0 ==> sql_gen::literal(value)[0] == '-'
            && text_laws::read_decimal(sql_gen::literal(value).drop_first()) == -v,
{
    reveal_strlit("'");
    reveal_strlit("'::");
    reveal_strlit("'\\x");
    reveal_strlit("+00:00");
    let sql = sql_gen::literal(value);
    assert("'::"@ =~= seq!['\'', ':', ':']);
    assert("'"@ =~= seq!['\'']);
    assert("+00:00"@ =~= seq!['+', '0', '0', ':', '0', '0']);
    match value {
        RowValue::I16(v) => {
            text_laws::signed_numbers_read_back(v as int);
        },
        RowValue::I32(v) => {
            text_laws::signed_numbers_read_back(v as int);
        },
        RowValue::I64(v) => {
            text_laws::signed_numbers_read_back(v as int);
        },
        RowValue::Text(s) => {
            sql_gen::string_literal_reads_back(s@);
        },
        RowValue::Bytes(b) => {
            bytes_read_back(b@);
            assert(sql.subrange(3, sql.len() - 1) =~= sql_gen::hex_bytes(b@));
        },
        RowValue::Json(j) => {
            sql_gen::string_literal_reads_back(outside::json_compact(j@));
            let body = sql_gen::string_literal(outside::json_compact(j@));
            assert(sql == body + "::jsonb"@);
        },
        _ => {},
    }
}

/// A floating point number is written as it is displayed, but for those without digits, which are
/// written by name with a cast to their type.
pub proof fn a_float_stands_for_its_value(x: types::Real32, y: types::Real64)
    ensures
        ({
            let sql = sql_gen::literal(RowValue::F32(x));
            match types::class32(x.bits) {
                types::RealClass::NotANumber => is_cast(sql, "NaN"@, "real"@),
                types::RealClass::PositiveInfinity => is_cast(sql, "Infinity"@, "real"@),
                types::RealClass::NegativeInfinity => is_cast(sql, "-Infinity"@, "real"@),
                _ => sql == x.display@,
            }
        }),
        ({
            let sql = sql_gen::literal(RowValue::F64(y));
            match types::class64(y.bits) {
                types::RealClass::NotANumber => is_cast(sql, "NaN"@, "double precision"@),
                types::RealClass::PositiveInfinity => is_cast(sql, "Infinity"@, "double precision"@),
                types::RealClass::NegativeInfinity => is_cast(sql, "-Infinity"@, "double precision"@),
                _ => sql == y.display@,
            }
        }),
{
    reveal_strlit("'NaN'::");
    reveal_strlit("'Infinity'::");
    reveal_strlit("'-Infinity'::");
    reveal_strlit("NaN");
    reveal_strlit("Infinity");
    reveal_strlit("-Infinity");
    assert("'NaN'::"@ =~= seq!['\''] + "NaN"@ + seq!['\'', ':', ':']);
    assert("'Infinity'::"@ =~= seq!['\''] + "Infinity"@ + seq!['\'', ':', ':']);
    assert("'-Infinity'::"@ =~= seq!['\''] + "-Infinity"@ + seq!['\'', ':', ':']);
}

} // verus!
