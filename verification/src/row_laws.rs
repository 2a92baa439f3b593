//! Laws of rows: which of them are inserted, updated and deleted, and what is compared of them.

use vstd::prelude::*;

use crate::collections;
use crate::delete_sync;
use crate::outside;
use crate::sql_gen;
use crate::table_diff;
use crate::table_diff::{RowChange, TableDataDiff, TableSetup};
use crate::text;
use crate::types;
use crate::types::{ColumnInfo, Row, RowValue};

verus! {

/// Whether the first column with a name stands at a place, ASCII letters compared without case.
pub open spec fn stands_at(columns: Seq<ColumnInfo>, name: Seq<char>, place: int) -> bool {
    &&& 0 <= place < columns.len()
    &&& text::ascii_lower(columns[place].name@) == text::ascii_lower(name)
    &&& forall|i: int|
        0 <= i < place ==> text::ascii_lower((#[trigger] columns[i]).name@) != text::ascii_lower(name)
}

/// Whether no column has a name, ASCII letters compared without case.
pub open spec fn stands_nowhere(columns: Seq<ColumnInfo>, name: Seq<char>) -> bool {
    forall|i: int|
        0 <= i < columns.len() ==> text::ascii_lower((#[trigger] columns[i]).name@) != text::ascii_lower(name)
}

/// Whether the key columns stand at places, each at its own.
pub open spec fn keys_stand_at(columns: Seq<ColumnInfo>, pk_cols: Seq<ColumnInfo>, places: Seq<int>) -> bool {
    &&& places.len() == pk_cols.len()
    &&& forall|k: int| 0 <= k < pk_cols.len() ==> stands_at(columns, pk_cols[k].name@, #[trigger] places[k])
}

/// A column is found at the first place where its name stands.
pub proof fn a_column_is_found_by_its_name(columns: Seq<ColumnInfo>, name: Seq<char>, place: int)
    requires
        stands_at(columns, name, place),
    ensures
        types::column_index(columns, name) == place,
        types::has_column(columns, name),
{
    types::lemma_column_index(columns, name);
    let found = types::column_index(columns, name);
    assert(types::column_is(columns[place], name));
    if found < place {
        assert(types::column_is(columns[found], name));
    }
}

/// A column is not found where no column has its name.
pub proof fn a_column_is_not_found_without_its_name(columns: Seq<ColumnInfo>, name: Seq<char>)
    ensures
        stands_nowhere(columns, name) <==> !types::has_column(columns, name),
        types::has_column(columns, name) ==> stands_at(columns, name, types::column_index(columns, name)),
{
    types::lemma_column_index(columns, name);
    if stands_nowhere(columns, name) && types::has_column(columns, name) {
        let i = types::column_index(columns, name);
        assert(types::column_is(columns[i], name));
    }
    if !types::has_column(columns, name) {
        assert forall|i: int| 0 <= i < columns.len() implies text::ascii_lower((#[trigger] columns[i]).name@)
            != text::ascii_lower(name) by {
            assert(!types::column_is(columns[i], name));
        }
    }
    if types::has_column(columns, name) {
        let place = types::column_index(columns, name);
        assert forall|i: int| 0 <= i < place implies text::ascii_lower((#[trigger] columns[i]).name@)
            != text::ascii_lower(name) by {
            assert(!types::column_is(columns[i], name));
        }
    }
}

/// A column that both tables have is modified exactly where its two values are not equal and it
/// is not to be ignored; so it is wherever one of the values is a null and the other is not.
pub proof fn a_column_is_modified_where_its_values_differ(
    ref_row: Seq<RowValue>,
    target_row: Seq<RowValue>,
    ref_columns: Seq<ColumnInfo>,
    target_columns: Seq<ColumnInfo>,
    ignore: Set<Seq<char>>,
    i: int,
    j: int,
)
    requires
        ref_columns.len() <= usize::MAX,
        0 <= i < ref_columns.len(),
        stands_at(target_columns, ref_columns[i].name@, j),
    ensures
        ({
            let modified = table_diff::modified_columns(ref_row, target_row, ref_columns, target_columns, ignore);
            let ignored = ignore.contains(outside::lowercase_text(ref_columns[i].name@));
            &&& modified.contains(i as usize) <==> !ignored && !types::values_equal(ref_row[i], target_row[j])
            &&& !ignored && ref_row[i] is Null && !(target_row[j] is Null) ==> modified.contains(i as usize)
            &&& !ignored && !(ref_row[i] is Null) && target_row[j] is Null ==> modified.contains(i as usize)
            &&& ref_row[i] is Null && target_row[j] is Null ==> !modified.contains(i as usize)
        }),
{
    a_column_is_found_by_its_name(target_columns, ref_columns[i].name@, j);
    lemma_modified(ref_row, target_row, ref_columns, target_columns, ignore, i);
}

/// A column that the target has not is not modified.
pub proof fn a_column_of_the_reference_alone_is_not_modified(
    ref_row: Seq<RowValue>,
    target_row: Seq<RowValue>,
    ref_columns: Seq<ColumnInfo>,
    target_columns: Seq<ColumnInfo>,
    ignore: Set<Seq<char>>,
    i: int,
)
    requires
        ref_columns.len() <= usize::MAX,
        0 <= i < ref_columns.len(),
        stands_nowhere(target_columns, ref_columns[i].name@),
    ensures
        !table_diff::modified_columns(ref_row, target_row, ref_columns, target_columns, ignore).contains(i as usize),
{
    a_column_is_not_found_without_its_name(target_columns, ref_columns[i].name@);
    lemma_modified(ref_row, target_row, ref_columns, target_columns, ignore, i);
}

/// The modified columns are places of columns, each once and in the order of the table.
pub proof fn modified_columns_ascend(
    ref_row: Seq<RowValue>,
    target_row: Seq<RowValue>,
    ref_columns: Seq<ColumnInfo>,
    target_columns: Seq<ColumnInfo>,
    ignore: Set<Seq<char>>,
)
    requires
        ref_columns.len() <= usize::MAX,
    ensures
        ({
            let modified = table_diff::modified_columns(ref_row, target_row, ref_columns, target_columns, ignore);
            &&& forall|a: int| 0 <= a < modified.len() ==> #[trigger] modified[a] < ref_columns.len()
            &&& forall|a: int, b: int| 0 <= a < b < modified.len() ==> #[trigger] modified[a] < #[trigger] modified[b]
        }),
{
    let keep = table_diff::is_modified(ref_row, target_row, ref_columns, target_columns, ignore);
    collections::lemma_picked(ref_columns.len(), keep);
    let places = collections::picked(ref_columns.len(), keep);
    let modified = table_diff::modified_columns(ref_row, target_row, ref_columns, target_columns, ignore);
    assert forall|a: int| 0 <= a < modified.len() implies #[trigger] modified[a] < ref_columns.len() && modified[a]
        == places[a] by {
        assert(0 <= places[a] < ref_columns.len());
    }
    assert forall|a: int, b: int| 0 <= a < b < modified.len() implies #[trigger] modified[a]
        < #[trigger] modified[b] by {
        assert(places[a] < places[b]);
    }
}

proof fn lemma_modified(
    ref_row: Seq<RowValue>,
    target_row: Seq<RowValue>,
    ref_columns: Seq<ColumnInfo>,
    target_columns: Seq<ColumnInfo>,
    ignore: Set<Seq<char>>,
    i: int,
)
    requires
        ref_columns.len() <= usize::MAX,
        0 <= i < ref_columns.len(),
    ensures
        table_diff::modified_columns(ref_row, target_row, ref_columns, target_columns, ignore).contains(i as usize)
            <==> table_diff::is_modified(ref_row, target_row, ref_columns, target_columns, ignore)(i),
{
    let keep = table_diff::is_modified(ref_row, target_row, ref_columns, target_columns, ignore);
    collections::lemma_picked(ref_columns.len(), keep);
    let places = collections::picked(ref_columns.len(), keep);
    let modified = table_diff::modified_columns(ref_row, target_row, ref_columns, target_columns, ignore);
    if modified.contains(i as usize) {
        let a = modified.index_of(i as usize);
        assert(modified[a] == places[a] as usize);
        assert(places[a] == i);
    }
    if keep(i) {
        assert(places.contains(i));
        let a = places.index_of(i);
        assert(modified[a] == i as usize);
    }
}

/// Whether two rows differ in one of the values at the places of the key.
pub open spec fn keys_differ(
    row: Seq<RowValue>,
    places: Seq<int>,
    other: Seq<RowValue>,
    other_places: Seq<int>,
) -> bool {
    exists|k: int| 0 <= k < places.len() && !types::values_equal(row[#[trigger] places[k]], other[other_places[k]])
}

/// A row of the target has the key of a row of the reference exactly where the two rows are equal
/// in every key column.
pub proof fn a_key_is_the_same_in_every_column(
    target_row: Seq<RowValue>,
    target_columns: Seq<ColumnInfo>,
    ref_row: Seq<RowValue>,
    ref_columns: Seq<ColumnInfo>,
    pk_cols: Seq<ColumnInfo>,
    ref_places: Seq<int>,
    target_places: Seq<int>,
)
    requires
        keys_stand_at(ref_columns, pk_cols, ref_places),
        keys_stand_at(target_columns, pk_cols, target_places),
    ensures
        table_diff::same_key(target_row, target_columns, ref_row, ref_columns, pk_cols) <==> !keys_differ(
            ref_row,
            ref_places,
            target_row,
            target_places,
        ),
{
    assert forall|k: int| 0 <= k < pk_cols.len() implies types::column_index(
        ref_columns,
        (#[trigger] pk_cols[k]).name@,
    ) == ref_places[k] && types::column_index(target_columns, pk_cols[k].name@) == target_places[k] by {
        a_column_is_found_by_its_name(ref_columns, pk_cols[k].name@, ref_places[k]);
        a_column_is_found_by_its_name(target_columns, pk_cols[k].name@, target_places[k]);
    }
    if !table_diff::same_key(target_row, target_columns, ref_row, ref_columns, pk_cols) {
        let k = choose|k: int|
            #![trigger pk_cols[k]]
            0 <= k < pk_cols.len() && !types::values_equal(
                ref_row[types::column_index(ref_columns, pk_cols[k].name@)],
                target_row[types::column_index(target_columns, pk_cols[k].name@)],
            );
        assert(!types::values_equal(ref_row[ref_places[k]], target_row[target_places[k]]));
    }
    if keys_differ(ref_row, ref_places, target_row, target_places) {
        let k = choose|k: int|
            0 <= k < ref_places.len() && !types::values_equal(
                ref_row[#[trigger] ref_places[k]],
                target_row[target_places[k]],
            );
        assert(pk_cols[k] == pk_cols[k]);
    }
}

/// A row of the reference is inserted exactly where each row of the target differs from it in one
/// of the key columns.
pub proof fn a_row_is_inserted_where_no_row_has_its_key(
    diff: TableDataDiff,
    setup: TableSetup,
    exclude: Set<Seq<char>>,
    target_rows: Seq<Row>,
    row: Row,
    ref_places: Seq<int>,
    target_places: Seq<int>,
)
    requires
        keys_stand_at(setup.ref_columns@, setup.pk_cols@, ref_places),
        keys_stand_at(setup.target_columns@, setup.pk_cols@, target_places),
    ensures
        table_diff::row_change(diff, setup, exclude, target_rows, row) is Insert <==> forall|m: int|
            0 <= m < target_rows.len() ==> keys_differ(
                row@,
                ref_places,
                (#[trigger] target_rows[m])@,
                target_places,
            ),
{
    assert forall|m: int| 0 <= m < target_rows.len() implies (table_diff::same_key(
        (#[trigger] target_rows[m])@,
        setup.target_columns@,
        row@,
        setup.ref_columns@,
        setup.pk_cols@,
    ) <==> !keys_differ(row@, ref_places, target_rows[m]@, target_places)) by {
        a_key_is_the_same_in_every_column(
            target_rows[m]@,
            setup.target_columns@,
            row@,
            setup.ref_columns@,
            setup.pk_cols@,
            ref_places,
            target_places,
        );
    }
    table_diff::changes_say_what_differs(diff, setup, exclude, target_rows, row);
}

/// Whether a row of the target is the first that is equal to a row of the reference in every key
/// column.
pub open spec fn is_first_match(
    target_rows: Seq<Row>,
    target_places: Seq<int>,
    row: Row,
    ref_places: Seq<int>,
    m: int,
) -> bool {
    &&& 0 <= m < target_rows.len()
    &&& !keys_differ(row@, ref_places, target_rows[m]@, target_places)
    &&& forall|l: int| 0 <= l < m ==> keys_differ(row@, ref_places, (#[trigger] target_rows[l])@, target_places)
}

/// A row whose key the target has is compared with the first row that has it: where a column that
/// both tables have and that is not ignored has unequal values in the two rows there is an
/// UPDATE, and where there is none the row asks for nothing.
pub proof fn a_row_is_updated_where_a_compared_value_differs(
    diff: TableDataDiff,
    setup: TableSetup,
    exclude: Set<Seq<char>>,
    target_rows: Seq<Row>,
    row: Row,
    ref_places: Seq<int>,
    target_places: Seq<int>,
    m: int,
)
    requires
        keys_stand_at(setup.ref_columns@, setup.pk_cols@, ref_places),
        keys_stand_at(setup.target_columns@, setup.pk_cols@, target_places),
        is_first_match(target_rows, target_places, row, ref_places, m),
    ensures
        ({
            let change = table_diff::row_change(diff, setup, exclude, target_rows, row);
            let differs = exists|i: int, j: int|
                #![trigger row@[i], target_rows[m]@[j]]
                0 <= i < setup.ref_columns@.len() && stands_at(
                    setup.target_columns@,
                    setup.ref_columns@[i].name@,
                    j,
                ) && !table_diff::ignored_columns(diff, setup.ref_columns@).contains(
                    outside::lowercase_text(setup.ref_columns@[i].name@),
                ) && !types::values_equal(row@[i], target_rows[m]@[j]);
            &&& change is Update <==> differs
            &&& change is Same <==> !differs
        }),
{
    let ignore = table_diff::ignored_columns(diff, setup.ref_columns@);
    assert forall|l: int| 0 <= l < target_rows.len() implies (table_diff::same_key(
        (#[trigger] target_rows[l])@,
        setup.target_columns@,
        row@,
        setup.ref_columns@,
        setup.pk_cols@,
    ) <==> !keys_differ(row@, ref_places, target_rows[l]@, target_places)) by {
        a_key_is_the_same_in_every_column(
            target_rows[l]@,
            setup.target_columns@,
            row@,
            setup.ref_columns@,
            setup.pk_cols@,
            ref_places,
            target_places,
        );
    }
    table_diff::lemma_match_index(
        target_rows,
        setup.target_columns@,
        row@,
        setup.ref_columns@,
        setup.pk_cols@,
    );
    let found = table_diff::match_index(
        target_rows,
        setup.target_columns@,
        row@,
        setup.ref_columns@,
        setup.pk_cols@,
    );
    if found < m {
        assert(keys_differ(row@, ref_places, target_rows[found]@, target_places));
    }
    assert(found == m);
    table_diff::changes_say_what_differs(diff, setup, exclude, target_rows, row);
    let keep = table_diff::is_modified(
        row@,
        target_rows[m]@,
        setup.ref_columns@,
        setup.target_columns@,
        ignore,
    );
    assert forall|c: int| 0 <= c < setup.ref_columns@.len() && #[trigger] keep(c) implies exists|i: int, j: int|
        #![trigger row@[i], target_rows[m]@[j]]
        0 <= i < setup.ref_columns@.len() && stands_at(setup.target_columns@, setup.ref_columns@[i].name@, j)
            && !ignore.contains(outside::lowercase_text(setup.ref_columns@[i].name@)) && !types::values_equal(
            row@[i],
            target_rows[m]@[j],
        ) by {
        a_column_is_not_found_without_its_name(setup.target_columns@, setup.ref_columns@[c].name@);
        let j = types::column_index(setup.target_columns@, setup.ref_columns@[c].name@);
        assert(!types::values_equal(row@[c], target_rows[m]@[j]));
    }
    assert forall|i: int, j: int|
        #![trigger row@[i], target_rows[m]@[j]]
        0 <= i < setup.ref_columns@.len() && stands_at(setup.target_columns@, setup.ref_columns@[i].name@, j)
            && !ignore.contains(outside::lowercase_text(setup.ref_columns@[i].name@)) && !types::values_equal(
            row@[i],
            target_rows[m]@[j],
        ) implies keep(i) by {
        a_column_is_found_by_its_name(setup.target_columns@, setup.ref_columns@[i].name@, j);
    }
}

/// After the comparison a row that asks for nothing is in the target as it is in the reference:
/// some row of the target has its key, and has in each compared column a value equal to that of
/// the reference, a null where the reference has one and none where it has none.
pub proof fn a_row_that_asks_for_nothing_is_in_the_target(
    diff: TableDataDiff,
    setup: TableSetup,
    exclude: Set<Seq<char>>,
    target_rows: Seq<Row>,
    row: Row,
    ref_places: Seq<int>,
    target_places: Seq<int>,
) -> (m: int)
    requires
        keys_stand_at(setup.ref_columns@, setup.pk_cols@, ref_places),
        keys_stand_at(setup.target_columns@, setup.pk_cols@, target_places),
        table_diff::row_change(diff, setup, exclude, target_rows, row) is Same,
    ensures
        0 <= m < target_rows.len(),
        !keys_differ(row@, ref_places, target_rows[m]@, target_places),
        forall|i: int, j: int|
            #![trigger row@[i], target_rows[m]@[j]]
            0 <= i < setup.ref_columns@.len() && stands_at(setup.target_columns@, setup.ref_columns@[i].name@, j)
                && !table_diff::ignored_columns(diff, setup.ref_columns@).contains(
                outside::lowercase_text(setup.ref_columns@[i].name@),
            ) ==> types::values_equal(row@[i], target_rows[m]@[j]) && (row@[i] is Null
                <==> target_rows[m]@[j] is Null),
{
    table_diff::lemma_match_index(
        target_rows,
        setup.target_columns@,
        row@,
        setup.ref_columns@,
        setup.pk_cols@,
    );
    let m = table_diff::match_index(
        target_rows,
        setup.target_columns@,
        row@,
        setup.ref_columns@,
        setup.pk_cols@,
    );
    assert forall|l: int| 0 <= l < target_rows.len() implies (table_diff::same_key(
        (#[trigger] target_rows[l])@,
        setup.target_columns@,
        row@,
        setup.ref_columns@,
        setup.pk_cols@,
    ) <==> !keys_differ(row@, ref_places, target_rows[l]@, target_places)) by {
        a_key_is_the_same_in_every_column(
            target_rows[l]@,
            setup.target_columns@,
            row@,
            setup.ref_columns@,
            setup.pk_cols@,
            ref_places,
            target_places,
        );
    }
    table_diff::changes_say_what_differs(diff, setup, exclude, target_rows, row);
    assert(m < target_rows.len());
    a_row_is_updated_where_a_compared_value_differs(
        diff,
        setup,
        exclude,
        target_rows,
        row,
        ref_places,
        target_places,
        m,
    );
    m
}

/// The statements that a row asks for are on the target table, and are of that row.
pub proof fn statements_are_on_the_target(
    diff: TableDataDiff,
    setup: TableSetup,
    exclude: Set<Seq<char>>,
    target_rows: Seq<Row>,
    row: Row,
    ref_places: Seq<int>,
    target_places: Seq<int>,
    m: int,
)
    requires
        keys_stand_at(setup.ref_columns@, setup.pk_cols@, ref_places),
        keys_stand_at(setup.target_columns@, setup.pk_cols@, target_places),
    ensures
        table_diff::row_change(diff, setup, exclude, target_rows, row) matches RowChange::Insert(sql) ==> sql
            == sql_gen::insert_statement(diff.target_table@, setup.ref_columns@, row@, exclude),
        is_first_match(target_rows, target_places, row, ref_places, m) ==> (table_diff::row_change(
            diff,
            setup,
            exclude,
            target_rows,
            row,
        ) matches RowChange::Update(sql) ==> sql == sql_gen::update_statement(
            diff.target_table@,
            setup.ref_columns@,
            setup.pk_cols@,
            row@,
            table_diff::modified_columns(
                row@,
                target_rows[m]@,
                setup.ref_columns@,
                setup.target_columns@,
                table_diff::ignored_columns(diff, setup.ref_columns@),
            ),
        )),
{
    table_diff::lemma_match_index(
        target_rows,
        setup.target_columns@,
        row@,
        setup.ref_columns@,
        setup.pk_cols@,
    );
    assert forall|l: int| 0 <= l < target_rows.len() implies (table_diff::same_key(
        (#[trigger] target_rows[l])@,
        setup.target_columns@,
        row@,
        setup.ref_columns@,
        setup.pk_cols@,
    ) <==> !keys_differ(row@, ref_places, target_rows[l]@, target_places)) by {
        a_key_is_the_same_in_every_column(
            target_rows[l]@,
            setup.target_columns@,
            row@,
            setup.ref_columns@,
            setup.pk_cols@,
            ref_places,
            target_places,
        );
    }
    let found = table_diff::match_index(
        target_rows,
        setup.target_columns@,
        row@,
        setup.ref_columns@,
        setup.pk_cols@,
    );
    if is_first_match(target_rows, target_places, row, ref_places, m) && found < m {
        assert(keys_differ(row@, ref_places, target_rows[found]@, target_places));
    }
}

/// Whether the key values of a row differ from those of each of other rows, in one value at least.
pub open spec fn differs_from_all(row: Row, others: Seq<Row>, n: int) -> bool {
    forall|j: int| 0 <= j < others.len() ==> differ(row, #[trigger] others[j], n)
}

/// Whether two rows differ in one of their first values.
pub open spec fn differ(row: Row, other: Row, n: int) -> bool {
    exists|i: int| 0 <= i < n && !types::values_equal(#[trigger] row@[i], other@[i])
}

proof fn lemma_missing(row: Row, others: Seq<Row>, n: int)
    ensures
        delete_sync::is_missing(others, n)(row) <==> differs_from_all(row, others, n),
{
    assert forall|j: int| 0 <= j < others.len() implies (!delete_sync::same_values(
        row@,
        (#[trigger] others[j])@,
        n,
    ) <==> differ(row, others[j], n)) by {
        if !delete_sync::same_values(row@, others[j]@, n) {
            let i = choose|i: int| #![trigger row@[i]] 0 <= i < n && !types::values_equal(row@[i], others[j]@[i]);
            assert(!types::values_equal(row@[i], others[j]@[i]));
        }
        if differ(row, others[j], n) {
            let i = choose|i: int| 0 <= i < n && !types::values_equal(#[trigger] row@[i], others[j]@[i]);
            assert(!types::values_equal(row@[i], others[j]@[i]));
        }
    }
}

/// A key of the target is kept only where some key of the reference is equal to it in every one
/// of its values: it is deleted exactly where each key of the reference has a value that is not
/// equal to the one at the same place.
pub proof fn a_key_is_deleted_where_every_key_of_the_reference_differs(
    target_rows: Seq<Row>,
    ref_rows: Seq<Row>,
    n: int,
    row: Row,
)
    ensures
        delete_sync::deleted_rows(target_rows, ref_rows, n).contains(row) <==> target_rows.contains(row) && forall|
            j: int,
        |
            0 <= j < ref_rows.len() ==> exists|i: int|
                0 <= i < n && !types::values_equal(#[trigger] row@[i], (#[trigger] ref_rows[j])@[i]),
        delete_sync::deleted_rows(target_rows.push(row), ref_rows, n) == if differs_from_all(row, ref_rows, n) {
            delete_sync::deleted_rows(target_rows, ref_rows, n).push(row)
        } else {
            delete_sync::deleted_rows(target_rows, ref_rows, n)
        },
        delete_sync::deleted_rows(Seq::empty(), ref_rows, n).len() == 0,
{
    let keep = delete_sync::is_missing(ref_rows, n);
    lemma_missing(row, ref_rows, n);
    collections::lemma_filter_has(target_rows, keep, row);
    target_rows.lemma_filter_push(row, keep);
    reveal(Seq::filter);
    let each = forall|j: int|
        0 <= j < ref_rows.len() ==> exists|i: int|
            0 <= i < n && !types::values_equal(#[trigger] row@[i], (#[trigger] ref_rows[j])@[i]);
    if each {
        assert forall|j: int| 0 <= j < ref_rows.len() implies differ(row, #[trigger] ref_rows[j], n) by {
            let i = choose|i: int| 0 <= i < n && !types::values_equal(#[trigger] row@[i], ref_rows[j]@[i]);
            assert(!types::values_equal(row@[i], ref_rows[j]@[i]));
        }
    }
    if differs_from_all(row, ref_rows, n) {
        assert forall|j: int| 0 <= j < ref_rows.len() implies exists|i: int|
            0 <= i < n && !types::values_equal(#[trigger] row@[i], (#[trigger] ref_rows[j])@[i]) by {
            assert(differ(row, ref_rows[j], n));
            let i = choose|i: int| 0 <= i < n && !types::values_equal(#[trigger] row@[i], ref_rows[j]@[i]);
            assert(!types::values_equal(row@[i], ref_rows[j]@[i]));
        }
    }
}

} // verus!
