//! Laws of the comparison of one table: its keys, what it leaves out, its hashes, its batches and
//! its scripts.

use vstd::prelude::*;

use crate::collections;
use crate::delete_sync;
use crate::metadata;
use crate::outside;
use crate::row_laws;
use crate::sql_gen;
use crate::sql_laws;
use crate::table_diff;
use crate::table_diff::{HashedKey, RowChange, TableDataDiff, TableSetup};
use crate::text;
use crate::text_laws;
use crate::types;
use crate::types::{ColumnInfo, Row, TableDiffStatus};

verus! {

/// Whether one of the names is that of a column, ASCII letters compared without case.
pub open spec fn is_named(keys: Seq<String>, column: ColumnInfo) -> bool {
    exists|a: int|
        0 <= a < keys.len() && text::ascii_lower((#[trigger] keys[a])@) == text::ascii_lower(column.name@)
}

/// The key is made up of the columns that the alternate keys name, where there are such names,
/// and else of those of the primary key: all of them and no others, each once and in the order of
/// the table.
pub proof fn a_key_has_all_of_its_columns(
    columns: Seq<ColumnInfo>,
    alternate_keys: Option<Seq<String>>,
    places: Seq<int>,
)
    requires
        forall|a: int, b: int| 0 <= a < b < places.len() ==> #[trigger] places[a] < #[trigger] places[b],
        forall|i: int| #[trigger]
            places.contains(i) <==> 0 <= i < columns.len() && match alternate_keys {
                Some(keys) if keys.len() > 0 => is_named(keys, columns[i]),
                _ => columns[i].is_pk,
            },
    ensures
        metadata::key_columns(columns, alternate_keys).len() == places.len(),
        forall|k: int|
            0 <= k < places.len() ==> #[trigger] metadata::key_columns(columns, alternate_keys)[k]
                == columns[places[k]],
{
    let keep = metadata::is_key_column(columns, alternate_keys);
    assert forall|i: int| #[trigger] places.contains(i) <==> 0 <= i < columns.len() && keep(i) by {
        if let Some(keys) = alternate_keys {
            assert(metadata::names_match(keys, columns[i].name@) <==> is_named(keys, columns[i]));
        }
    }
    collections::lemma_picked_unique(columns.len(), keep, places);
}

/// The columns of the primary key are told by name, whatever the alternate keys are.
pub proof fn the_primary_key_is_told_by_name(columns: Seq<ColumnInfo>, places: Seq<int>)
    requires
        forall|a: int, b: int| 0 <= a < b < places.len() ==> #[trigger] places[a] < #[trigger] places[b],
        forall|i: int| #[trigger] places.contains(i) <==> 0 <= i < columns.len() && columns[i].is_pk,
    ensures
        metadata::real_pk_names(columns).len() == places.len(),
        forall|k: int|
            0 <= k < places.len() ==> #[trigger] metadata::real_pk_names(columns)[k] == columns[places[k]].name@,
{
    a_key_has_all_of_its_columns(columns, None, places);
}

/// Two tables can be compared exactly where both are there, each column of the reference is in
/// the target, and the reference has a key; and else it is told which of these is not so.
pub proof fn tables_are_compared_where_they_can_be(
    alternate_keys: Option<Seq<String>>,
    reference: Option<Seq<ColumnInfo>>,
    target: Option<Seq<ColumnInfo>>,
)
    ensures
        ({
            let status = table_diff::setup_status(alternate_keys, reference, target);
            let lacks = reference is Some && target is Some && exists|i: int|
                0 <= i < reference->0.len() && row_laws::stands_nowhere(
                    target->0,
                    (#[trigger] reference->0[i]).name@,
                );
            let keyed = reference is Some && exists|i: int|
                0 <= i < reference->0.len() && match alternate_keys {
                    Some(keys) if keys.len() > 0 => is_named(keys, #[trigger] reference->0[i]),
                    _ => reference->0[i].is_pk,
                };
            &&& status == TableDiffStatus::ReferenceNotFound <==> reference is None
            &&& status == TableDiffStatus::TargetNotFound <==> reference is Some && target is None
            &&& status == TableDiffStatus::ColumnMismatch <==> reference is Some && target is Some && lacks
            &&& status == TableDiffStatus::NoPrimaryKey <==> reference is Some && target is Some && !lacks && !keyed
            &&& status == TableDiffStatus::Okay <==> reference is Some && target is Some && !lacks && keyed
        }),
{
    if reference is Some && target is Some {
        let r = reference->0;
        let t = target->0;
        assert forall|i: int| 0 <= i < r.len() implies (types::has_column(t, (#[trigger] r[i]).name@)
            <==> !row_laws::stands_nowhere(t, r[i].name@)) by {
            row_laws::a_column_is_not_found_without_its_name(t, r[i].name@);
        }
        let keep = metadata::is_key_column(r, alternate_keys);
        collections::lemma_picked(r.len(), keep);
        let places = collections::picked(r.len(), keep);
        assert forall|i: int| 0 <= i < r.len() implies (#[trigger] keep(i) <==> match alternate_keys {
            Some(keys) if keys.len() > 0 => is_named(keys, r[i]),
            _ => r[i].is_pk,
        }) by {
            if let Some(keys) = alternate_keys {
                assert(metadata::names_match(keys, r[i].name@) <==> is_named(keys, r[i]));
            }
        }
        assert(metadata::key_columns(r, alternate_keys).len() == places.len());
        if places.len() > 0 {
            assert(keep(places[0]));
            assert(0 <= places[0] < r.len());
            assert(r[places[0]] == r[places[0]]);
        }
        assert forall|i: int|
            0 <= i < r.len() && (match alternate_keys {
                Some(keys) if keys.len() > 0 => is_named(keys, #[trigger] r[i]),
                _ => r[i].is_pk,
            }) implies places.len() > 0 by {
            assert(keep(i));
            assert(places.contains(i));
        }
    }
}

/// An INSERT leaves out exactly the columns that are to be excluded, those of the primary key
/// where that is asked for and other keys are used, and identity columns unless they are to be
/// included.
pub proof fn inserts_leave_out_what_is_asked(
    diff: TableDataDiff,
    columns: Seq<ColumnInfo>,
    real_pk_names: Seq<String>,
    k: Seq<char>,
)
    ensures
        table_diff::exclude_set(diff, columns, real_pk_names).contains(k) <==> {
            ||| diff.exclude_columns@.contains(k)
            ||| diff.exclude_real_pk && diff.alternate_keys is Some && exists|i: int|
                0 <= i < real_pk_names.len() && outside::lowercase_text((#[trigger] real_pk_names[i])@) == k
            ||| !(diff.include_identity_columns == Some(true)) && exists|i: int|
                0 <= i < columns.len() && (#[trigger] columns[i]).is_identity && outside::lowercase_text(
                    columns[i].name@,
                ) == k
        },
{
}

/// A column is not compared exactly where it is to be ignored, or is an identity column and these
/// are always left out.
pub proof fn comparisons_ignore_what_is_asked(diff: TableDataDiff, columns: Seq<ColumnInfo>, k: Seq<char>)
    ensures
        table_diff::ignored_columns(diff, columns).contains(k) <==> {
            ||| diff.columns_to_ignore@.contains(k)
            ||| diff.include_identity_columns == Some(false) && exists|i: int|
                0 <= i < columns.len() && (#[trigger] columns[i]).is_identity && outside::lowercase_text(
                    columns[i].name@,
                ) == k
        },
{
}

/// Lowercase names are those of all names, and no others.
pub proof fn each_name_is_lowered(names: Set<Seq<char>>, list: Seq<String>, name: Seq<char>, i: int)
    ensures
        names.contains(name) ==> collections::lowered(names).contains(outside::lowercase_text(name)),
        collections::lowered(names).contains(name) ==> exists|n: Seq<char>| #[trigger]
            names.contains(n) && outside::lowercase_text(n) == name,
        0 <= i < list.len() ==> collections::lowercase_names(list).contains(outside::lowercase_text(list[i]@)),
        collections::lowercase_names(list).contains(name) ==> exists|j: int|
            0 <= j < list.len() && outside::lowercase_text((#[trigger] list[j])@) == name,
{
    if 0 <= i < list.len() {
        assert(outside::lowercase_text(list[i]@) == outside::lowercase_text(list[i]@));
    }
}

/// A condition is taken as it is given, but for white space around it and a WHERE before it, in
/// whatever case.
pub proof fn a_condition_is_taken_without_its_keyword(
    before: Seq<char>,
    keyword: Seq<char>,
    between: Seq<char>,
    condition: Seq<char>,
    after: Seq<char>,
)
    requires
        text_laws::is_blank(before),
        text_laws::is_blank(between),
        text_laws::is_blank(after),
        keyword.len() == 5,
        text::ascii_lower(keyword) == seq!['w', 'h', 'e', 'r', 'e'],
        condition.len() > 0,
        !text::is_white_space(condition[0]),
        !text::is_white_space(condition.last()),
    ensures
        table_diff::bare_condition(before + (keyword + between + condition) + after) == condition,
        !(condition.len() >= 5 && text::ascii_lower(condition.take(5)) == seq!['w', 'h', 'e', 'r', 'e'])
            ==> table_diff::bare_condition(before + condition + after) == condition,
{
    reveal_strlit("WHERE");
    let low = seq!['w', 'h', 'e', 'r', 'e'];
    assert(text::ascii_lower("WHERE"@) =~= low);
    let whole = keyword + between + condition;
    assert(whole[0] == keyword[0]);
    assert(text::ascii_lower(keyword)[0] == 'w');
    text_laws::ascii_letters_are_lowered(keyword, 0);
    assert(keyword[0] == 'w' || keyword[0] == 'W');
    assert(!text::is_white_space(keyword[0]));
    assert(whole.last() == condition.last());
    text_laws::trimming_takes_white_space_from_the_ends(before, whole, after);
    assert(whole.take(5) =~= keyword);
    assert(whole.skip(5) =~= between + condition);
    assert(between + condition + Seq::<char>::empty() =~= between + condition);
    text_laws::trimming_takes_white_space_from_the_ends(between, condition, Seq::empty());
    text_laws::trimming_takes_white_space_from_the_ends(before, condition, after);
}

/// Of hashes for the same key the later one stands, and a hash stands for its own key alone.
pub proof fn the_last_hash_of_a_key_stands(rows: Seq<HashedKey>, row: HashedKey, k: Seq<char>)
    ensures
        ({
            let map = table_diff::md5_map(rows.push(row));
            let key = table_diff::key_of_values(row.key@);
            &&& map.contains_key(key) && map[key] == row.md5@
            &&& k != key ==> (map.contains_key(k) <==> table_diff::md5_map(rows).contains_key(k))
            &&& k != key && map.contains_key(k) ==> map[k] == table_diff::md5_map(rows)[k]
        }),
        !table_diff::md5_map(Seq::empty()).contains_key(k),
{
    assert(rows.push(row).drop_last() =~= rows);
}

/// A key of the reference is looked into exactly where the target has no hash for it or another
/// one.
pub proof fn keys_are_looked_into_where_hashes_differ(
    reference: Seq<HashedKey>,
    target: Seq<HashedKey>,
    k: Seq<char>,
)
    ensures
        ({
            let r = table_diff::md5_map(reference);
            let t = table_diff::md5_map(target);
            table_diff::differing_keys(r, t).contains(k) <==> r.contains_key(k) && (!t.contains_key(k) || r[k] != t[k])
        }),
{
}

/// Rows are kept exactly where their key is to be looked into, in the order in which they came.
pub proof fn rows_are_kept_by_their_keys(
    columns: Seq<ColumnInfo>,
    pk_cols: Seq<ColumnInfo>,
    keys: Set<Seq<char>>,
    rows: Seq<Row>,
    row: Row,
)
    ensures
        rows.push(row).filter(table_diff::has_key_in(columns, pk_cols, keys)) == if keys.contains(
            table_diff::row_key(row@, columns, pk_cols),
        ) {
            rows.filter(table_diff::has_key_in(columns, pk_cols, keys)).push(row)
        } else {
            rows.filter(table_diff::has_key_in(columns, pk_cols, keys))
        },
{
    rows.lemma_filter_push(row, table_diff::has_key_in(columns, pk_cols, keys));
}

/// The key of a row is made up of the texts of its values in all key columns, in their order.
pub proof fn a_row_key_has_all_of_its_values(
    row: Seq<types::RowValue>,
    columns: Seq<ColumnInfo>,
    pk_cols: Seq<ColumnInfo>,
    places: Seq<int>,
    values: Seq<types::RowValue>,
    texts: Seq<Seq<char>>,
)
    requires
        row_laws::keys_stand_at(columns, pk_cols, places),
        values.len() == pk_cols.len(),
        texts.len() == pk_cols.len(),
        forall|k: int| 0 <= k < pk_cols.len() ==> #[trigger] values[k] == row[places[k]],
        forall|k: int| 0 <= k < pk_cols.len() ==> #[trigger] texts[k] == table_diff::key_text(values[k]),
    ensures
        table_diff::row_key(row, columns, pk_cols) == text::joined(texts, seq!['|']),
        table_diff::key_of_values(values) == text::joined(texts, seq!['|']),
{
    reveal_strlit("|");
    assert("|"@ =~= seq!['|']);
    let found = sql_gen::key_values(columns, pk_cols, row);
    assert forall|k: int| 0 <= k < pk_cols.len() implies #[trigger] found[k] == values[k] by {
        row_laws::a_column_is_found_by_its_name(columns, pk_cols[k].name@, places[k]);
    }
    assert(found =~= values);
    assert(table_diff::key_texts(values) =~= texts);
}

proof fn lemma_plain_text_is_not_escaped(s: Seq<char>)
    requires
        !table_diff::escaped(s).contains('\\'),
    ensures
        table_diff::escaped(s) == s,
    decreases s.len(),
{
    if s.len() > 0 {
        let rest = table_diff::escaped(s.drop_first());
        if s[0] == '\\' || s[0] == '|' {
            assert(table_diff::escaped(s)[0] == '\\');
        } else {
            assert forall|i: int| 0 <= i < rest.len() implies rest[i] != '\\' by {
                assert(table_diff::escaped(s)[i + 1] == rest[i]);
            }
            lemma_plain_text_is_not_escaped(s.drop_first());
            assert(seq![s[0]] + s.drop_first() =~= s);
        }
    } else {
        assert(table_diff::escaped(s) =~= s);
    }
}

/// In the key of a row a null is told apart from every value that is not one, the text `NULL`
/// among them.
pub proof fn a_null_is_told_apart_in_a_key(value: types::RowValue)
    ensures
        table_diff::key_text(value) == "NULL"@ <==> value is Null,
{
    reveal_strlit("NULL");
    reveal_strlit("\\NULL");
    if !(value is Null) && table_diff::key_text(value) == "NULL"@ {
        let raw = table_diff::raw_text(value);
        if raw == "NULL"@ {
            assert("\\NULL"@.len() != "NULL"@.len());
        } else {
            assert(!table_diff::escaped(raw).contains('\\')) by {
                assert("NULL"@ =~= seq!['N', 'U', 'L', 'L']);
            }
            lemma_plain_text_is_not_escaped(raw);
        }
    }
}

/// A text without bars and backslashes stands in a key as it is, and so do the digits of an integer,
/// whatever its width.
pub proof fn plain_values_stand_in_a_key_as_they_are(s: String, i: i16)
    requires
        !s@.contains('|'),
        !s@.contains('\\'),
        s@ != "NULL"@,
    ensures
        table_diff::key_text(types::RowValue::Text(s)) == s@,
        table_diff::key_text(types::RowValue::I16(i)) == text::signed_decimal(i as int),
        table_diff::key_text(types::RowValue::I32(i as i32)) == text::signed_decimal(i as int),
        table_diff::key_text(types::RowValue::I64(i as i64)) == text::signed_decimal(i as int),
{
    lemma_plain_text_stands(s@);
    let digits = text::signed_decimal(i as int);
    text_laws::decimal_reads_back(if i < 0 { -i as nat } else { i as nat });
    assert forall|k: int| 0 <= k < digits.len() implies digits[k] == '-' || '0' <= #[trigger] digits[k] <= '9' by {
        if i < 0 && k > 0 {
            assert(digits[k] == text::decimal(-i as nat)[k - 1]);
        }
    }
    lemma_plain_text_stands(digits);
    reveal_strlit("NULL");
    if digits == "NULL"@ {
        assert(digits[0] == 'N');
    }
}

proof fn lemma_plain_text_stands(s: Seq<char>)
    requires
        !s.contains('|'),
        !s.contains('\\'),
    ensures
        table_diff::escaped(s) == s,
    decreases s.len(),
{
    if s.len() > 0 {
        let rest = s.drop_first();
        assert forall|k: int| 0 <= k < rest.len() implies rest[k] != '|' && rest[k] != '\\' by {
            assert(rest[k] == s[k + 1]);
            assert(s.contains(s[k + 1]));
        }
        assert(s.contains(s[0]));
        lemma_plain_text_stands(rest);
        assert(seq![s[0]] + rest =~= s);
    } else {
        assert(table_diff::escaped(s) =~= s);
    }
}

/// A batch starts where the last one ended, is not empty, is no larger than asked for, and is
/// smaller only at the end.
pub proof fn batches_go_on_where_the_last_one_ended(checked: int, size: int, total: int)
    requires
        0 <= checked < total,
        size > 0,
    ensures
        checked < table_diff::batch_end(checked, size, total) <= total,
        table_diff::batch_end(checked, size, total) - checked <= size,
        table_diff::batch_end(checked, size, total) < total ==> table_diff::batch_end(checked, size, total) - checked
            == size,
{
}

/// The statements of changes are those of each change: an INSERT or an UPDATE gives its own, and a
/// row that is the same gives none.
pub proof fn each_change_gives_its_statement(changes: Seq<RowChange>, sql: Seq<char>)
    ensures
        table_diff::inserted(changes.push(RowChange::Insert(sql))) == table_diff::inserted(changes).push(sql),
        table_diff::updated(changes.push(RowChange::Insert(sql))) == table_diff::updated(changes),
        table_diff::updated(changes.push(RowChange::Update(sql))) == table_diff::updated(changes).push(sql),
        table_diff::inserted(changes.push(RowChange::Update(sql))) == table_diff::inserted(changes),
        table_diff::inserted(changes.push(RowChange::Same)) == table_diff::inserted(changes),
        table_diff::updated(changes.push(RowChange::Same)) == table_diff::updated(changes),
        table_diff::inserted(Seq::empty()).len() == 0,
        table_diff::updated(Seq::empty()).len() == 0,
{
    assert(changes.push(RowChange::Insert(sql)).drop_last() =~= changes);
    assert(changes.push(RowChange::Update(sql)).drop_last() =~= changes);
    assert(changes.push(RowChange::Same).drop_last() =~= changes);
}

/// Each row of the reference is asked about once, in their order.
pub proof fn each_row_is_asked_about(
    diff: TableDataDiff,
    setup: TableSetup,
    exclude: Set<Seq<char>>,
    target_rows: Seq<Row>,
    rows: Seq<Row>,
    i: int,
)
    requires
        0 <= i < rows.len(),
    ensures
        table_diff::row_changes(diff, setup, exclude, target_rows, rows).len() == rows.len(),
        table_diff::row_changes(diff, setup, exclude, target_rows, rows)[i] == table_diff::row_change(
            diff,
            setup,
            exclude,
            target_rows,
            rows[i],
        ),
{
}

/// A script is nothing where there are no statements, starts with the header where they are the
/// first, and holds each statement with its ending.
pub proof fn a_script_holds_each_statement(
    head: Seq<char>,
    statements: Seq<Seq<char>>,
    sql: Seq<char>,
    ending: Seq<char>,
)
    ensures
        table_diff::script(head, Seq::empty(), ending, true).len() == 0,
        table_diff::script(head, Seq::empty(), ending, false).len() == 0,
        table_diff::script(head, seq![sql], ending, true) == head + sql + ending,
        table_diff::script(head, seq![sql], ending, false) == sql + ending,
        statements.len() > 0 ==> table_diff::script(head, statements.push(sql), ending, true) == table_diff::script(
            head,
            statements,
            ending,
            true,
        ) + sql + ending,
        statements.len() > 0 ==> table_diff::script(head, statements.push(sql), ending, false) == table_diff::script(
            head,
            statements,
            ending,
            false,
        ) + sql + ending,
{
    reveal_with_fuel(table_diff::lines, 2);
    let none = Seq::<Seq<char>>::empty();
    assert(seq![sql] =~= none.push(sql));
    assert(seq![sql].drop_last() =~= none);
    assert(table_diff::lines(seq![sql], ending) =~= sql + ending);
    assert(head + (sql + ending) =~= head + sql + ending);
    table_diff::lemma_script_push(head, statements, sql, ending, true);
    table_diff::lemma_script_push(head, statements, sql, ending, false);
    if statements.len() > 0 {
        let a = table_diff::script(head, statements, ending, true);
        let b = table_diff::script(head, statements, ending, false);
        assert(a + Seq::<char>::empty() + (sql + ending) =~= a + sql + ending);
        assert(b + Seq::<char>::empty() + (sql + ending) =~= b + sql + ending);
    }
}

/// The columns of the reference that stand for the key columns are those that have their names,
/// one for each and in their order; the reference has the key exactly where it has all of these.
pub proof fn the_reference_has_the_key_columns(
    ref_columns: Seq<ColumnInfo>,
    pk_cols: Seq<ColumnInfo>,
    places: Seq<int>,
)
    ensures
        row_laws::keys_stand_at(ref_columns, pk_cols, places) ==> {
            &&& delete_sync::has_keys(ref_columns, pk_cols)
            &&& delete_sync::matching_columns(ref_columns, pk_cols).len() == pk_cols.len()
            &&& forall|k: int|
                0 <= k < pk_cols.len() ==> #[trigger] delete_sync::matching_columns(ref_columns, pk_cols)[k]
                    == ref_columns[places[k]]
        },
        !delete_sync::has_keys(ref_columns, pk_cols) <==> exists|k: int|
            0 <= k < pk_cols.len() && row_laws::stands_nowhere(ref_columns, (#[trigger] pk_cols[k]).name@),
{
    assert forall|k: int| 0 <= k < pk_cols.len() implies (types::has_column(
        ref_columns,
        (#[trigger] pk_cols[k]).name@,
    ) <==> !row_laws::stands_nowhere(ref_columns, pk_cols[k].name@)) by {
        row_laws::a_column_is_not_found_without_its_name(ref_columns, pk_cols[k].name@);
    }
    if row_laws::keys_stand_at(ref_columns, pk_cols, places) {
        assert forall|k: int| 0 <= k < pk_cols.len() implies types::has_column(
            ref_columns,
            (#[trigger] pk_cols[k]).name@,
        ) && types::column_index(ref_columns, pk_cols[k].name@) == places[k] by {
            row_laws::a_column_is_found_by_its_name(ref_columns, pk_cols[k].name@, places[k]);
        }
        assert forall|k: int| 0 <= k < pk_cols.len() implies #[trigger] delete_sync::matching_columns(
            ref_columns,
            pk_cols,
        )[k] == ref_columns[places[k]] by {
            assert(pk_cols[k] == pk_cols[k]);
        }
    }
}

/// Each key that is to be deleted gets a DELETE of its own, in their order, which is found by all
/// values of the key.
pub proof fn each_deleted_key_gets_a_statement(
    table: Seq<char>,
    pk_cols: Seq<ColumnInfo>,
    rows: Seq<Row>,
    i: int,
    conditions: Seq<Seq<char>>,
)
    requires
        table_diff::distinct_names(pk_cols),
        0 <= i < rows.len(),
        conditions.len() == pk_cols.len(),
        forall|k: int|
            0 <= k < pk_cols.len() ==> sql_laws::asks_for(#[trigger] conditions[k], pk_cols[k].name@, rows[i]@[k]),
    ensures
        delete_sync::delete_statements(table, pk_cols, rows).len() == rows.len(),
        delete_sync::delete_statements(table, pk_cols, rows)[i] == "DELETE FROM "@ + sql_gen::table_sql(table)
            + " WHERE "@ + text::joined(conditions, " AND "@) + ";"@,
{
    let places = Seq::new(pk_cols.len(), |k: int| k);
    assert forall|k: int| 0 <= k < pk_cols.len() implies row_laws::stands_at(
        pk_cols,
        pk_cols[k].name@,
        #[trigger] places[k],
    ) by {
        assert forall|j: int| 0 <= j < k implies text::ascii_lower((#[trigger] pk_cols[j]).name@)
            != text::ascii_lower(pk_cols[k].name@) by {
            assert(!types::column_is(pk_cols[j], pk_cols[k].name@));
        }
    }
    sql_laws::a_delete_is_found_by_the_whole_key(table, pk_cols, pk_cols, rows[i]@, places, conditions);
}

} // verus!
