//! How rows are split into batches changes nothing of what is written.

use vstd::prelude::*;

use crate::delete_sync;
use crate::table_diff;
use crate::table_diff::{RowChange, TableDataDiff, TableDiffRun, TableSetup};
use crate::types::{ColumnInfo, Row};

verus! {

/// Whether a row of the target has the key of a row of the reference.
pub open spec fn is_match(setup: TableSetup, target_row: Row, row: Row) -> bool {
    table_diff::same_key(
        target_row@,
        setup.target_columns@,
        row@,
        setup.ref_columns@,
        setup.pk_cols@,
    )
}

/// Whether no two different rows of the target have the key of the same row.
pub open spec fn keys_unique(setup: TableSetup, target: Seq<Row>) -> bool {
    forall|i: int, j: int, row: Row|
        0 <= i < target.len() && 0 <= j < target.len() && #[trigger] is_match(setup, target[i], row)
            && #[trigger] is_match(setup, target[j], row) ==> target[i]@ == target[j]@
}

/// Whether rows are from the target, and hold each row of the target that has the key of a row
/// of the reference.
pub open spec fn holds_match(setup: TableSetup, target: Seq<Row>, found: Seq<Row>, row: Row) -> bool {
    &&& forall|i: int|
        0 <= i < found.len() ==> exists|j: int| 0 <= j < target.len() && #[trigger] target[j] == #[trigger] found[i]
    &&& forall|j: int|
        0 <= j < target.len() && #[trigger] is_match(setup, target[j], row) ==> exists|i: int|
            0 <= i < found.len() && #[trigger] found[i] == target[j]
}

/// Whether for any batch of rows of the reference those rows of the target are found that have
/// their keys.
pub open spec fn finds_matches(
    setup: TableSetup,
    target: Seq<Row>,
    found: spec_fn(Seq<Row>) -> Seq<Row>,
) -> bool {
    forall|batch: Seq<Row>, k: int|
        0 <= k < batch.len() ==> holds_match(setup, target, #[trigger] found(batch), #[trigger] batch[k])
}

/// What a row asks of the target is the same for any rows that hold the row of its key, in
/// whatever order and company.
pub proof fn only_the_match_counts(
    diff: TableDataDiff,
    setup: TableSetup,
    exclude: Set<Seq<char>>,
    target: Seq<Row>,
    found: Seq<Row>,
    row: Row,
)
    requires
        keys_unique(setup, target),
        holds_match(setup, target, found, row),
    ensures
        table_diff::row_change(diff, setup, exclude, found, row) == table_diff::row_change(
            diff,
            setup,
            exclude,
            target,
            row,
        ),
{
    let m = table_diff::matched(setup, found, row);
    let n = table_diff::matched(setup, target, row);
    table_diff::lemma_match_index(found, setup.target_columns@, row@, setup.ref_columns@, setup.pk_cols@);
    table_diff::lemma_match_index(target, setup.target_columns@, row@, setup.ref_columns@, setup.pk_cols@);
    if n < target.len() {
        assert(is_match(setup, target[n], row));
        let i = choose|i: int| 0 <= i < found.len() && #[trigger] found[i] == target[n];
        assert(is_match(setup, found[i], row));
        assert(m <= i);
    }
    if m < found.len() {
        assert(is_match(setup, found[m], row));
        let j = choose|j: int| 0 <= j < target.len() && #[trigger] target[j] == found[m];
        assert(is_match(setup, target[j], row));
        assert(n <= j);
        assert(target[j]@ == target[n]@);
    }
}

/// What a comparison writes, and how many statements of each kind.
pub struct Written {
    pub inserts: Seq<char>,
    pub updates: Seq<char>,
    pub insert_count: nat,
    pub update_count: nat,
}

/// What is written of changes, after so many statements of each kind.
pub open spec fn written_of(diff: TableDataDiff, changes: Seq<RowChange>, inserts: nat, updates: nat) -> Written {
    let head = table_diff::header(diff.target_table@);
    Written {
        inserts: table_diff::script(head, table_diff::inserted(changes), "\n\n"@, inserts == 0),
        updates: table_diff::script(head, table_diff::updated(changes), "\n\n"@, updates == 0),
        insert_count: inserts + table_diff::inserted(changes).len(),
        update_count: updates + table_diff::updated(changes).len(),
    }
}

/// What a comparison writes of the rows from a place on, batch by batch, after so many
/// statements of each kind. For each batch rows of the target are found, and one call of
/// `TableDiffRun::take_target_rows` says what is written.
pub open spec fn written_in_batches(
    diff: TableDataDiff,
    setup: TableSetup,
    exclude: Set<Seq<char>>,
    found: spec_fn(Seq<Row>) -> Seq<Row>,
    rows: Seq<Row>,
    checked: int,
    inserts: nat,
    updates: nat,
) -> Written
    decreases rows.len() - checked,
{
    if checked >= rows.len() || diff.chunk_size == 0 {
        Written { inserts: Seq::empty(), updates: Seq::empty(), insert_count: inserts, update_count: updates }
    } else {
        let end = table_diff::batch_end(checked, diff.chunk_size as int, rows.len() as int);
        let batch = rows.subrange(checked, end);
        let changes = table_diff::row_changes(diff, setup, exclude, found(batch), batch);
        let first = written_of(diff, changes, inserts, updates);
        let rest = written_in_batches(
            diff,
            setup,
            exclude,
            found,
            rows,
            end,
            first.insert_count,
            first.update_count,
        );
        Written {
            inserts: first.inserts + rest.inserts,
            updates: first.updates + rest.updates,
            insert_count: rest.insert_count,
            update_count: rest.update_count,
        }
    }
}

proof fn lemma_written(
    diff: TableDataDiff,
    setup: TableSetup,
    exclude: Set<Seq<char>>,
    target: Seq<Row>,
    found: spec_fn(Seq<Row>) -> Seq<Row>,
    rows: Seq<Row>,
    checked: int,
    inserts: nat,
    updates: nat,
)
    requires
        diff.chunk_size > 0,
        keys_unique(setup, target),
        finds_matches(setup, target, found),
        0 <= checked <= rows.len(),
    ensures
        written_in_batches(diff, setup, exclude, found, rows, checked, inserts, updates) == written_of(
            diff,
            table_diff::row_changes(diff, setup, exclude, target, rows.skip(checked)),
            inserts,
            updates,
        ),
    decreases rows.len() - checked,
{
    let head = table_diff::header(diff.target_table@);
    let all = table_diff::row_changes(diff, setup, exclude, target, rows.skip(checked));
    if checked == rows.len() {
        assert(all =~= Seq::<RowChange>::empty());
    } else {
        let end = table_diff::batch_end(checked, diff.chunk_size as int, rows.len() as int);
        let batch = rows.subrange(checked, end);
        let changes = table_diff::row_changes(diff, setup, exclude, found(batch), batch);
        let rest = table_diff::row_changes(diff, setup, exclude, target, rows.skip(end));
        assert forall|k: int| 0 <= k < batch.len() implies changes[k] == all[k] by {
            assert(holds_match(setup, target, found(batch), batch[k]));
            only_the_match_counts(diff, setup, exclude, target, found(batch), batch[k]);
            assert(batch[k] == rows.skip(checked)[k]);
        }
        assert(all =~= changes + rest) by {
            assert forall|k: int| 0 <= k < all.len() implies all[k] == (changes + rest)[k] by {
                if k >= changes.len() {
                    assert(rows.skip(end)[k - changes.len()] == rows.skip(checked)[k]);
                }
            }
        }
        table_diff::batches_add_up(changes, rest, head, "\n\n"@, inserts == 0);
        table_diff::batches_add_up(changes, rest, head, "\n\n"@, updates == 0);
        table_diff::lemma_statements_add(changes, rest);
        lemma_written(
            diff,
            setup,
            exclude,
            target,
            found,
            rows,
            end,
            inserts + table_diff::inserted(changes).len(),
            updates + table_diff::updated(changes).len(),
        );
    }
}

/// The size of the batches does not show: two comparisons of the same rows that differ in
/// nothing else write the same and count the same, which is what one batch of all rows gives.
/// No two rows of the target have the same key, and for each batch its matches are found, by
/// each comparison in an order of its own.
pub proof fn batch_size_does_not_show(
    diff: TableDataDiff,
    size: usize,
    setup: TableSetup,
    exclude: Set<Seq<char>>,
    target: Seq<Row>,
    found: spec_fn(Seq<Row>) -> Seq<Row>,
    also_found: spec_fn(Seq<Row>) -> Seq<Row>,
    rows: Seq<Row>,
)
    requires
        diff.chunk_size > 0,
        size > 0,
        keys_unique(setup, target),
        finds_matches(setup, target, found),
        finds_matches(setup, target, also_found),
    ensures
        ({
            let other = TableDataDiff { chunk_size: size, ..diff };
            let written = written_in_batches(diff, setup, exclude, found, rows, 0, 0, 0);
            &&& written == written_in_batches(other, setup, exclude, also_found, rows, 0, 0, 0)
            &&& written == written_of(
                diff,
                table_diff::row_changes(diff, setup, exclude, target, rows),
                0,
                0,
            )
        }),
{
    let other = TableDataDiff { chunk_size: size, ..diff };
    lemma_written(diff, setup, exclude, target, found, rows, 0, 0, 0);
    lemma_written(other, setup, exclude, target, also_found, rows, 0, 0, 0);
    assert(rows.skip(0) =~= rows);
    assert(table_diff::row_changes(diff, setup, exclude, target, rows) =~= table_diff::row_changes(
        other,
        setup,
        exclude,
        target,
        rows,
    ));
}

/// What a comparison that is under way writes from here on is what it writes of the batch that
/// comes next, and then what it writes of the rows after that.
pub proof fn a_batch_is_written_after_the_other(run: TableDiffRun, found: spec_fn(Seq<Row>) -> Seq<Row>)
    requires
        run.valid(),
        run.phase is Check,
    ensures
        ({
            let changes = table_diff::row_changes(
                run.diff,
                run.setup,
                run.exclude@,
                found(run.batch()),
                run.batch(),
            );
            let end = table_diff::batch_end(
                run.checked as int,
                run.diff.chunk_size as int,
                run.pending@.len() as int,
            );
            let first = written_of(run.diff, changes, run.stats.inserts as nat, run.stats.updates as nat);
            let all = written_in_batches(
                run.diff,
                run.setup,
                run.exclude@,
                found,
                run.pending@,
                run.checked as int,
                run.stats.inserts as nat,
                run.stats.updates as nat,
            );
            let rest = written_in_batches(
                run.diff,
                run.setup,
                run.exclude@,
                found,
                run.pending@,
                end,
                first.insert_count,
                first.update_count,
            );
            &&& all.inserts == first.inserts + rest.inserts
            &&& all.updates == first.updates + rest.updates
            &&& all.insert_count == rest.insert_count
            &&& all.update_count == rest.update_count
        }),
{
}

/// Whether keys are from the reference, and hold each key of the reference that is the same as a
/// key of the target.
pub open spec fn holds_key(reference: Seq<Row>, found: Seq<Row>, row: Row, n: int) -> bool {
    &&& forall|i: int|
        0 <= i < found.len() ==> exists|j: int|
            0 <= j < reference.len() && #[trigger] reference[j] == #[trigger] found[i]
    &&& forall|j: int|
        0 <= j < reference.len() && delete_sync::same_values(row@, (#[trigger] reference[j])@, n) ==> exists|i: int|
            0 <= i < found.len() && #[trigger] found[i] == reference[j]
}

/// Whether for any batch of keys of the target those keys of the reference are found that are
/// the same.
pub open spec fn finds_keys(reference: Seq<Row>, found: spec_fn(Seq<Row>) -> Seq<Row>, n: int) -> bool {
    forall|batch: Seq<Row>, k: int|
        0 <= k < batch.len() ==> holds_key(reference, #[trigger] found(batch), #[trigger] batch[k], n)
}

/// What a search for rows to delete writes, and how many statements.
pub struct Deleted {
    pub text: Seq<char>,
    pub count: nat,
}

/// What is written of keys to delete, after so many statements.
pub open spec fn deleted_of(table: Seq<char>, pk_cols: Seq<ColumnInfo>, rows: Seq<Row>, before: nat) -> Deleted {
    Deleted {
        text: table_diff::script(
            delete_sync::delete_header(table),
            delete_sync::delete_statements(table, pk_cols, rows),
            "\n"@,
            before == 0,
        ),
        count: before + rows.len(),
    }
}

/// What a search for rows to delete writes of the keys from a place on, batch by batch, after so
/// many statements. For each batch keys of the reference are found, and one call of
/// `TableDeleteRun::take_reference_rows` says what is written.
pub open spec fn deleted_in_batches(
    table: Seq<char>,
    pk_cols: Seq<ColumnInfo>,
    size: nat,
    found: spec_fn(Seq<Row>) -> Seq<Row>,
    rows: Seq<Row>,
    checked: int,
    before: nat,
) -> Deleted
    decreases rows.len() - checked,
{
    if checked >= rows.len() || size == 0 {
        Deleted { text: Seq::empty(), count: before }
    } else {
        let end = table_diff::batch_end(checked, size as int, rows.len() as int);
        let batch = rows.subrange(checked, end);
        let missing = delete_sync::deleted_rows(batch, found(batch), pk_cols.len() as int);
        let first = deleted_of(table, pk_cols, missing, before);
        let rest = deleted_in_batches(table, pk_cols, size, found, rows, end, first.count);
        Deleted { text: first.text + rest.text, count: rest.count }
    }
}

/// Whether a key is missing is the same for any keys of the reference that hold it.
proof fn lemma_only_the_key_counts(reference: Seq<Row>, found: Seq<Row>, row: Row, n: int)
    requires
        holds_key(reference, found, row, n),
    ensures
        delete_sync::is_missing(found, n)(row) == delete_sync::is_missing(reference, n)(row),
{
    if !delete_sync::is_missing(found, n)(row) {
        let i = choose|i: int| 0 <= i < found.len() && delete_sync::same_values(row@, (#[trigger] found[i])@, n);
        let j = choose|j: int| 0 <= j < reference.len() && #[trigger] reference[j] == found[i];
        assert(delete_sync::same_values(row@, reference[j]@, n));
    }
    if !delete_sync::is_missing(reference, n)(row) {
        let j = choose|j: int|
            0 <= j < reference.len() && delete_sync::same_values(row@, (#[trigger] reference[j])@, n);
        let i = choose|i: int| 0 <= i < found.len() && #[trigger] found[i] == reference[j];
        assert(delete_sync::same_values(row@, found[i]@, n));
    }
}

proof fn lemma_same_filter(rows: Seq<Row>, a: spec_fn(Row) -> bool, b: spec_fn(Row) -> bool)
    requires
        forall|i: int| 0 <= i < rows.len() ==> a(#[trigger] rows[i]) == b(rows[i]),
    ensures
        rows.filter(a) == rows.filter(b),
    decreases rows.len(),
{
    reveal(Seq::filter);
    if rows.len() > 0 {
        let less = rows.drop_last();
        assert forall|i: int| 0 <= i < less.len() implies a(#[trigger] less[i]) == b(less[i]) by {
            assert(less[i] == rows[i]);
        }
        lemma_same_filter(less, a, b);
        assert(a(rows[rows.len() - 1]) == b(rows[rows.len() - 1]));
    }
}

proof fn lemma_deleted(
    table: Seq<char>,
    pk_cols: Seq<ColumnInfo>,
    size: nat,
    reference: Seq<Row>,
    found: spec_fn(Seq<Row>) -> Seq<Row>,
    rows: Seq<Row>,
    checked: int,
    before: nat,
)
    requires
        size > 0,
        finds_keys(reference, found, pk_cols.len() as int),
        0 <= checked <= rows.len(),
    ensures
        deleted_in_batches(table, pk_cols, size, found, rows, checked, before) == deleted_of(
            table,
            pk_cols,
            delete_sync::deleted_rows(rows.skip(checked), reference, pk_cols.len() as int),
            before,
        ),
    decreases rows.len() - checked,
{
    let n = pk_cols.len() as int;
    let all = delete_sync::deleted_rows(rows.skip(checked), reference, n);
    if checked == rows.len() {
        reveal(Seq::filter);
        assert(rows.skip(checked) =~= Seq::<Row>::empty());
        assert(delete_sync::delete_statements(table, pk_cols, all).len() == 0);
    } else {
        let end = table_diff::batch_end(checked, size as int, rows.len() as int);
        let batch = rows.subrange(checked, end);
        let missing = delete_sync::deleted_rows(batch, found(batch), n);
        let rest = delete_sync::deleted_rows(rows.skip(end), reference, n);
        assert forall|k: int| 0 <= k < batch.len() implies delete_sync::is_missing(found(batch), n)(
            #[trigger] batch[k],
        ) == delete_sync::is_missing(reference, n)(batch[k]) by {
            assert(holds_key(reference, found(batch), batch[k], n));
            lemma_only_the_key_counts(reference, found(batch), batch[k], n);
        }
        lemma_same_filter(
            batch,
            delete_sync::is_missing(found(batch), n),
            delete_sync::is_missing(reference, n),
        );
        assert(rows.skip(checked) =~= batch + rows.skip(end));
        Seq::filter_distributes_over_add(batch, rows.skip(end), delete_sync::is_missing(reference, n));
        assert(all == missing + rest);
        let a = delete_sync::delete_statements(table, pk_cols, missing);
        let b = delete_sync::delete_statements(table, pk_cols, rest);
        assert(delete_sync::delete_statements(table, pk_cols, all) =~= a + b);
        table_diff::lemma_scripts_add(delete_sync::delete_header(table), a, b, "\n"@, before == 0);
        lemma_deleted(table, pk_cols, size, reference, found, rows, end, before + missing.len());
    }
}

/// The size of the batches does not show in what is deleted: two searches for the same keys that
/// differ in nothing else write the same and count the same, which is what one batch of all keys
/// gives. For each batch the keys that the reference has are found, by each search in an order
/// of its own.
pub proof fn batch_size_does_not_show_in_deletes(
    table: Seq<char>,
    pk_cols: Seq<ColumnInfo>,
    size: nat,
    other_size: nat,
    reference: Seq<Row>,
    found: spec_fn(Seq<Row>) -> Seq<Row>,
    also_found: spec_fn(Seq<Row>) -> Seq<Row>,
    rows: Seq<Row>,
)
    requires
        size > 0,
        other_size > 0,
        finds_keys(reference, found, pk_cols.len() as int),
        finds_keys(reference, also_found, pk_cols.len() as int),
    ensures
        ({
            let deleted = deleted_in_batches(table, pk_cols, size, found, rows, 0, 0);
            &&& deleted == deleted_in_batches(table, pk_cols, other_size, also_found, rows, 0, 0)
            &&& deleted == deleted_of(
                table,
                pk_cols,
                delete_sync::deleted_rows(rows, reference, pk_cols.len() as int),
                0,
            )
        }),
{
    lemma_deleted(table, pk_cols, size, reference, found, rows, 0, 0);
    lemma_deleted(table, pk_cols, other_size, reference, also_found, rows, 0, 0);
    assert(rows.skip(0) =~= rows);
}

} // verus!
