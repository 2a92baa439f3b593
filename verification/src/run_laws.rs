//! Laws of the steps of a run: what each step asks for and makes of what it gets.

use vstd::prelude::*;

use crate::checksum;
use crate::checksum::TableChecksum;
use crate::chunk_strategy;
use crate::chunk_strategy::ChunkBounds;
use crate::collections;
use crate::collections::{NameSet, TextMap};
use crate::config;
use crate::config::TablePair;
use crate::data_diff;
use crate::data_diff::{DataDiffRun, TableTask};
use crate::delete_sync;
use crate::delete_sync::{DeleteAction, DeleteSetup, TableDeleteRun, TableDeleteSync};
use crate::error::DataDiffError;
use crate::estimation;
use crate::estimation::EstimationRun;
use crate::instant;
use crate::instant::Timestamp;
use crate::operation_laws;
use crate::outside;
use crate::report_laws;
use crate::row_laws;
use crate::schema_laws;
use crate::sql_gen;
use crate::table_diff;
use crate::table_diff::{ChunkOutput, DiffAction, HashedKey, RowChange, TableDataDiff, TableDiffRun, TableSetup};
use crate::table_laws;
use crate::text;
use crate::text_laws;
use crate::types;
use crate::types::{
    ColumnInfo, DiffReport, DiffStats, Row, SchemaComparisonResult, TableAnalysis, TableDiffStatus,
};

verus! {

proof fn lemma_statement_of_change(changes: Seq<RowChange>, i: int) -> (k: int)
    requires
        0 <= i < changes.len(),
    ensures
        changes[i] matches RowChange::Insert(sql) ==> 0 <= k < table_diff::inserted(changes).len()
            && table_diff::inserted(changes)[k] == sql,
        changes[i] matches RowChange::Update(sql) ==> 0 <= k < table_diff::updated(changes).len()
            && table_diff::updated(changes)[k] == sql,
    decreases changes.len(),
{
    let before = changes.drop_last();
    assert(changes =~= before.push(changes.last()));
    let sql = match changes.last() {
        RowChange::Insert(sql) => sql,
        RowChange::Update(sql) => sql,
        RowChange::Same => Seq::empty(),
    };
    table_laws::each_change_gives_its_statement(before, sql);
    if i < before.len() {
        lemma_statement_of_change(before, i)
    } else if changes[i] is Insert {
        table_diff::inserted(before).len() as int
    } else {
        table_diff::updated(before).len() as int
    }
}

proof fn lemma_no_statements(changes: Seq<RowChange>)
    requires
        forall|i: int| 0 <= i < changes.len() ==> #[trigger] changes[i] is Same,
    ensures
        table_diff::inserted(changes).len() == 0,
        table_diff::updated(changes).len() == 0,
    decreases changes.len(),
{
    table_laws::each_change_gives_its_statement(changes.drop_last(), Seq::empty());
    if changes.len() > 0 {
        let before = changes.drop_last();
        assert(changes =~= before.push(changes[changes.len() - 1]));
        assert forall|i: int| 0 <= i < before.len() implies #[trigger] before[i] is Same by {
            assert(before[i] == changes[i]);
        }
        lemma_no_statements(before);
    } else {
        assert(changes =~= Seq::empty());
    }
}

/// Whether a row of the reference has another value than a row of the target in a column that is
/// compared.
pub open spec fn has_another_value(
    diff: TableDataDiff,
    setup: TableSetup,
    row: Seq<types::RowValue>,
    other: Seq<types::RowValue>,
) -> bool {
    exists|i: int, j: int|
        #![trigger row[i], other[j]]
        0 <= i < setup.ref_columns@.len() && row_laws::stands_at(
            setup.target_columns@,
            setup.ref_columns@[i].name@,
            j,
        ) && !table_diff::ignored_columns(diff, setup.ref_columns@).contains(
            outside::lowercase_text(setup.ref_columns@[i].name@),
        ) && !types::values_equal(row[i], other[j])
}

/// A row of the reference is inserted where no row of the target has the whole of its key. Where one
/// has it, the first that does is updated where the rows differ in a column that is compared.
pub proof fn rows_are_inserted_and_updated_where_they_differ(
    diff: &TableDataDiff,
    setup: &TableSetup,
    exclude: &NameSet,
    ref_rows: &[Row],
    target_rows: &[Row],
    stats: &mut DiffStats,
    r: Result<ChunkOutput, DataDiffError>,
    ref_places: Seq<int>,
    target_places: Seq<int>,
    i: int,
    m: int,
)
    requires
        call_ensures(TableDataDiff::check_rows, (diff, setup, exclude, ref_rows, target_rows, stats), r),
        row_laws::keys_stand_at(setup.ref_columns@, setup.pk_cols@, ref_places),
        row_laws::keys_stand_at(setup.target_columns@, setup.pk_cols@, target_places),
        0 <= i < ref_rows@.len(),
    ensures
        r is Err <==> diff.cancelled,
        r matches Ok(out) ==> {
            let row = ref_rows@[i];
            let lacking = forall|l: int|
                0 <= l < target_rows@.len() ==> row_laws::keys_differ(
                    row@,
                    ref_places,
                    (#[trigger] target_rows@[l])@,
                    target_places,
                );
            let found = row_laws::is_first_match(target_rows@, target_places, row, ref_places, m);
            &&& lacking ==> final(stats).inserts > old(stats).inserts && text::has_part(
                out.inserts@,
                sql_gen::insert_statement(diff.target_table@, setup.ref_columns@, row@, exclude@),
            )
            &&& found && has_another_value(*diff, *setup, row@, target_rows@[m]@) ==> final(stats).updates > old(
                stats,
            ).updates && text::has_part(
                out.updates@,
                sql_gen::update_statement(
                    diff.target_table@,
                    setup.ref_columns@,
                    setup.pk_cols@,
                    row@,
                    table_diff::modified_columns(
                        row@,
                        target_rows@[m]@,
                        setup.ref_columns@,
                        setup.target_columns@,
                        table_diff::ignored_columns(*diff, setup.ref_columns@),
                    ),
                ),
            )
        },
{
    if let Ok(out) = r {
        let row = ref_rows@[i];
        let changes = table_diff::row_changes(*diff, *setup, exclude@, target_rows@, ref_rows@);
        let head = table_diff::header(diff.target_table@);
        table_laws::each_row_is_asked_about(*diff, *setup, exclude@, target_rows@, ref_rows@, i);
        let k = lemma_statement_of_change(changes, i);
        row_laws::a_row_is_inserted_where_no_row_has_its_key(
            *diff,
            *setup,
            exclude@,
            target_rows@,
            row,
            ref_places,
            target_places,
        );
        row_laws::statements_are_on_the_target(
            *diff,
            *setup,
            exclude@,
            target_rows@,
            row,
            ref_places,
            target_places,
            m,
        );
        if changes[i] is Insert {
            operation_laws::a_script_has_each_statement(
                head,
                table_diff::inserted(changes),
                "\n\n"@,
                old(stats).inserts == 0,
                k,
            );
        }
        if row_laws::is_first_match(target_rows@, target_places, row, ref_places, m) {
            row_laws::a_row_is_updated_where_a_compared_value_differs(
                *diff,
                *setup,
                exclude@,
                target_rows@,
                row,
                ref_places,
                target_places,
                m,
            );
            if changes[i] is Update {
                operation_laws::a_script_has_each_statement(
                    head,
                    table_diff::updated(changes),
                    "\n\n"@,
                    old(stats).updates == 0,
                    k,
                );
            }
        }
    }
}

/// Nothing is written where every row of the reference has a row in the target with the whole of
/// its key and with the same values in all columns that are compared.
pub proof fn nothing_is_written_where_nothing_differs(
    diff: &TableDataDiff,
    setup: &TableSetup,
    exclude: &NameSet,
    ref_rows: &[Row],
    target_rows: &[Row],
    stats: &mut DiffStats,
    r: Result<ChunkOutput, DataDiffError>,
    ref_places: Seq<int>,
    target_places: Seq<int>,
    matches: spec_fn(int) -> int,
)
    requires
        call_ensures(TableDataDiff::check_rows, (diff, setup, exclude, ref_rows, target_rows, stats), r),
        row_laws::keys_stand_at(setup.ref_columns@, setup.pk_cols@, ref_places),
        row_laws::keys_stand_at(setup.target_columns@, setup.pk_cols@, target_places),
        forall|i: int|
            0 <= i < ref_rows@.len() ==> row_laws::is_first_match(
                target_rows@,
                target_places,
                #[trigger] ref_rows@[i],
                ref_places,
                matches(i),
            ) && !has_another_value(*diff, *setup, ref_rows@[i]@, target_rows@[matches(i)]@),
    ensures
        r matches Ok(out) ==> out.inserts@.len() == 0 && out.updates@.len() == 0 && *final(stats) == *old(stats),
{
    if let Ok(out) = r {
        let changes = table_diff::row_changes(*diff, *setup, exclude@, target_rows@, ref_rows@);
        if ref_rows@.len() > 0 {
            table_laws::each_row_is_asked_about(*diff, *setup, exclude@, target_rows@, ref_rows@, 0);
        }
        assert forall|i: int| 0 <= i < changes.len() implies #[trigger] changes[i] is Same by {
            table_laws::each_row_is_asked_about(*diff, *setup, exclude@, target_rows@, ref_rows@, i);
            row_laws::a_row_is_updated_where_a_compared_value_differs(
                *diff,
                *setup,
                exclude@,
                target_rows@,
                ref_rows@[i],
                ref_places,
                target_places,
                matches(i),
            );
        }
        lemma_no_statements(changes);
    }
}

/// A comparison asks the reference for its rows, the hashes of a chunk of both tables, the rows of
/// a chunk of the reference, or the target for the rows with the keys of a batch; the condition
/// on rows holds for the reference alone.
pub proof fn a_comparison_asks_the_table_that_has_the_rows(
    run: &TableDiffRun,
    r: Result<DiffAction, DataDiffError>,
    reference: &str,
    target: &str,
    column: &str,
    filter: Option<&str>,
    columns: &[ColumnInfo],
    target_columns: &[ColumnInfo],
    pk_cols: &[ColumnInfo],
    batch: &[Row],
    queries: (String, String, String, String),
)
    requires
        call_ensures(TableDiffRun::action, (run,), r),
        reference@ == run.diff.ref_table@,
        target@ == run.diff.target_table@,
        column@ == run.timestamp_column@,
        chunk_strategy::text_of(filter) == chunk_strategy::owned_text_of(run.diff.table_where),
        columns@ == run.setup.ref_columns@,
        target_columns@ == run.setup.target_columns@,
        pk_cols@ == run.setup.pk_cols@,
        batch@ == run.batch(),
        call_ensures(sql_gen::build_hash_query, (reference, columns, pk_cols, Some(column), filter), queries.0),
        call_ensures(sql_gen::build_hash_query, (target, columns, pk_cols, Some(column), None), queries.1),
        call_ensures(sql_gen::build_range_rows_query, (reference, columns, pk_cols, column, filter), queries.2),
        call_ensures(sql_gen::build_lookup_query, (target, target_columns, columns, pk_cols, batch), queries.3),
    ensures
        r matches Ok(DiffAction::FetchHashes { ref_sql, target_sql, bounds, .. }) ==> run.phase is Hashes && ref_sql@
            == queries.0@ && target_sql@ == queries.1@ && bounds == run.bounds@[run.chunk as int],
        r matches Ok(DiffAction::FetchChunkRows { sql, bounds }) ==> run.phase is ChunkRows && sql@ == queries.2@
            && bounds == run.bounds@[run.chunk as int],
        r matches Ok(DiffAction::FetchTarget { sql }) ==> run.phase is Check && sql@ == queries.3@,
        r matches Ok(DiffAction::Finish(stats)) ==> run.phase is Done && stats == run.stats,
{
}

/// A chunk whose hashes are the same in both tables is passed over; of any other chunk the rows are
/// fetched.
pub proof fn chunks_with_the_same_hashes_are_passed_over(
    run: &mut TableDiffRun,
    reference: Vec<HashedKey>,
    target: Vec<HashedKey>,
)
    requires
        call_ensures(TableDiffRun::take_hashes, (run, reference, target), ()),
    ensures
        ({
            let r = table_diff::md5_map(reference@);
            let t = table_diff::md5_map(target@);
            let differs = exists|k: Seq<char>| #[trigger] r.contains_key(k) && !(t.contains_key(k) && r[k] == t[k]);
            &&& differs ==> final(run).phase is ChunkRows && final(run).chunk == old(run).chunk
            &&& !differs ==> final(run).chunk == old(run).chunk + 1
            &&& !differs ==> (final(run).phase is Hashes <==> old(run).chunk + 1 < old(run).bounds@.len())
        }),
        final(run).stats == old(run).stats,
{
    let r = table_diff::md5_map(reference@);
    let t = table_diff::md5_map(target@);
    let keys = table_diff::differing_keys(r, t);
    assert forall|k: Seq<char>| keys.contains(k) <==> #[trigger] r.contains_key(k) && !(t.contains_key(k) && r[k]
        == t[k]) by {
        table_laws::keys_are_looked_into_where_hashes_differ(reference@, target@, k);
    }
    if exists|k: Seq<char>| #[trigger] r.contains_key(k) && !(t.contains_key(k) && r[k] == t[k]) {
        let k = choose|k: Seq<char>| #[trigger] r.contains_key(k) && !(t.contains_key(k) && r[k] == t[k]);
        assert(keys.contains(k));
    } else {
        assert forall|k: Seq<char>| !keys.contains(k) by {
            assert(keys.contains(k) <==> r.contains_key(k) && !(t.contains_key(k) && r[k] == t[k]));
        }
        assert(keys =~= Set::empty());
    }
}

/// Two tables are compared where both are found, the target has every column of the reference, and
/// there is a key; else the comparison says which of these fails first.
pub proof fn tables_are_set_up_where_they_can_be_compared(
    diff: &TableDataDiff,
    reference: Option<Vec<ColumnInfo>>,
    target: Option<Vec<ColumnInfo>>,
    r: Result<TableSetup, TableDiffStatus>,
)
    requires
        call_ensures(TableDataDiff::setup, (diff, reference, target), r),
    ensures
        ({
            let found = reference is Some && target is Some;
            let lacks = found && exists|i: int|
                0 <= i < reference->0@.len() && row_laws::stands_nowhere(
                    target->0@,
                    (#[trigger] reference->0@[i]).name@,
                );
            let keyed = found && exists|i: int|
                0 <= i < reference->0@.len() && match diff.alternate_keys {
                    Some(keys) if keys@.len() > 0 => table_laws::is_named(keys@, #[trigger] reference->0@[i]),
                    _ => reference->0@[i].is_pk,
                };
            &&& r is Ok <==> found && !lacks && keyed
            &&& r == Err::<TableSetup, TableDiffStatus>(TableDiffStatus::ReferenceNotFound) <==> reference is None
            &&& r == Err::<TableSetup, TableDiffStatus>(TableDiffStatus::TargetNotFound) <==> reference is Some
                && target is None
            &&& r == Err::<TableSetup, TableDiffStatus>(TableDiffStatus::ColumnMismatch) <==> found && lacks
            &&& r == Err::<TableSetup, TableDiffStatus>(TableDiffStatus::NoPrimaryKey) <==> found && !lacks && !keyed
            &&& r matches Ok(setup) ==> Some(setup.ref_columns) == reference && Some(setup.target_columns) == target
        }),
{
    table_laws::tables_are_compared_where_they_can_be(
        table_diff::owned_list(diff.alternate_keys),
        table_diff::columns_of(reference),
        table_diff::columns_of(target),
    );
}

/// The chunks of a range of time begin at its start, each ends where the next begins, and the last
/// ends a second after the end of the range. They are told where all of these are in the range of
/// points in time.
pub proof fn chunks_end_where_the_next_begins(
    min_ts: Timestamp,
    max_ts: Timestamp,
    offsets: &[i64],
    r: Option<Vec<ChunkBounds>>,
    i: int,
)
    requires
        call_ensures(chunk_strategy::chunk_bounds, (min_ts, max_ts, offsets), r),
        0 <= i < offsets@.len(),
    ensures
        (forall|k: int|
            0 <= k < offsets@.len() ==> instant::MIN_SECONDS <= min_ts.secs() + #[trigger] offsets@[k]
                <= instant::MAX_SECONDS) && instant::MIN_SECONDS <= max_ts.secs() + 1 <= instant::MAX_SECONDS
            ==> r is Some,
        r matches Some(bounds) ==> {
            &&& bounds@.len() == offsets@.len()
            &&& bounds@[i].start.total_nanos() == min_ts.total_nanos() + offsets@[i] * 1_000_000_000
            &&& i + 1 < offsets@.len() ==> bounds@[i].end.total_nanos() == bounds@[i + 1].start.total_nanos()
            &&& i + 1 == offsets@.len() ==> bounds@[i].end.total_nanos() == max_ts.total_nanos() + 1_000_000_000
        },
{
    if r is None {
        let k = choose|k: int|
            0 <= k < offsets@.len() && !#[trigger] chunk_strategy::chunk_in_range(min_ts, max_ts, offsets@, k);
        assert(offsets@[k] == offsets@[k]);
        if k + 1 < offsets@.len() {
            assert(offsets@[k + 1] == offsets@[k + 1]);
        }
    }
    if let Some(bounds) = r {
        assert(chunk_strategy::bounds_chunk(bounds@[i], min_ts, max_ts, offsets@, i));
        if i + 1 < offsets@.len() {
            assert(chunk_strategy::bounds_chunk(bounds@[i + 1], min_ts, max_ts, offsets@, i + 1));
        }
    }
}

/// A table is reported with what was found. A table that is not found, has no key or does not match
/// is reported with nothing and warned of; any other error ends the run and changes nothing.
pub proof fn a_table_is_reported_with_what_was_found(
    run: &mut DataDiffRun,
    outcome: Result<DiffStats, DataDiffError>,
    r: Result<(), DataDiffError>,
)
    requires
        call_ensures(DataDiffRun::take_diff, (run, outcome), r),
    ensures
        ({
            let warned = outcome matches Err(e) && (e is TableNotFound || e is NoPrimaryKey || e is ColumnMismatch);
            let reported = final(run).report.tables@.len() == old(run).report.tables@.len() + 1;
            let last = final(run).report.tables@.last();
            &&& r is Err <==> outcome is Err && !warned
            &&& r is Err ==> *final(run) == *old(run)
            &&& warned ==> reported && last.inserts == 0 && last.updates == 0 && last.deletes == 0
            &&& warned ==> final(run).report.warnings@.len() == old(run).report.warnings@.len() + 1
            &&& outcome is Ok && !old(run).config.include_delete ==> reported && last.inserts == outcome->Ok_0.inserts
                && last.updates == outcome->Ok_0.updates && last.deletes == 0
            &&& outcome is Ok && old(run).config.include_delete ==> final(run).phase is Delete
                && final(run).current.inserts == outcome->Ok_0.inserts && final(run).current.updates
                == outcome->Ok_0.updates
            &&& outcome is Ok ==> final(run).report.warnings@.len() == old(run).report.warnings@.len()
            &&& reported ==> last.table_name@ == config::table_part(old(run).pair().target@)
        }),
{
    let before = text::texts(old(run).report.warnings@);
    let after = text::texts(final(run).report.warnings@);
    assert(before.len() == old(run).report.warnings@.len());
    assert(after.len() == final(run).report.warnings@.len());
}

/// A table of up to a million rows needs no column to split it by. A larger one is split by time
/// where it has a column for it, has to be excluded where it has none, and else ends the run.
pub proof fn a_large_table_needs_a_column_for_time(
    run: &mut EstimationRun,
    row_count: i64,
    r: Result<(), DataDiffError>,
)
    requires
        call_ensures(EstimationRun::take_row_count, (run, row_count), r),
    ensures
        ({
            let columns = old(run).phase->Count_columns@;
            let column = chunk_strategy::timestamp_column(
                columns,
                chunk_strategy::owned_text_of(old(run).timestamp_column),
            );
            let table = config::table_part(old(run).pair().reference@);
            let excluded = exists|name: Seq<char>| #[trigger]
                old(run).exclude_tables@.contains(name) && outside::lowercase_text(name) == outside::lowercase_text(
                    table,
                );
            &&& r is Err <==> row_count > 1_000_000 && column is None && !excluded
            &&& final(run).phase is Range <==> row_count > 1_000_000 && column is Some
            &&& final(run).phase is Estimate <==> row_count <= 1_000_000 || (column is None && excluded)
        }),
{
    let table = config::table_part(old(run).pair().reference@);
    let names = old(run).exclude_tables@;
    if exists|name: Seq<char>| #[trigger]
        names.contains(name) && outside::lowercase_text(name) == outside::lowercase_text(table) {
        let name = choose|name: Seq<char>| #[trigger]
            names.contains(name) && outside::lowercase_text(name) == outside::lowercase_text(table);
        schema_laws::tables_are_excluded_whatever_the_case(names, table, name);
    }
    schema_laws::tables_are_excluded_whatever_the_case(names, table, table);
}

/// The keys to delete by are fetched from the target, and looked up in the reference.
pub proof fn keys_are_fetched_from_the_target_and_looked_up_in_the_reference(
    run: &TableDeleteRun,
    r: Result<DeleteAction, DataDiffError>,
    reference: &str,
    target: &str,
    pk_cols: &[ColumnInfo],
    ref_pk_cols: &[ColumnInfo],
    filter: Option<&str>,
    batch: &[Row],
    queries: (String, String),
)
    requires
        call_ensures(TableDeleteRun::action, (run,), r),
        reference@ == run.sync.ref_table@,
        target@ == run.sync.target_table@,
        pk_cols@ == run.setup.pk_cols@,
        ref_pk_cols@ == run.setup.ref_pk_cols@,
        chunk_strategy::text_of(filter) == chunk_strategy::owned_text_of(run.sync.table_where),
        batch@ == run.batch(),
        call_ensures(sql_gen::build_fetch, (target, pk_cols), queries.0),
        call_ensures(sql_gen::build_reference_keys_query, (reference, ref_pk_cols, batch, filter), queries.1),
    ensures
        r matches Ok(DeleteAction::FetchKeys { sql }) ==> run.phase is Keys && sql@ == queries.0@,
        r matches Ok(DeleteAction::FetchReference { sql }) ==> run.phase is Check && sql@ == queries.1@,
        r matches Ok(DeleteAction::Finish(n)) ==> run.phase is Done && n == run.deleted,
{
}

/// A step of deleting does to a batch what checking a chunk does, and goes on to the end of the
/// keys.
pub proof fn a_batch_is_deleted_like_a_chunk(
    run: &mut TableDeleteRun,
    ref_rows: Vec<Row>,
    r: Result<String, DataDiffError>,
    sync: &TableDeleteSync,
    setup: &DeleteSetup,
    batch: &[Row],
    reference: &[Row],
    chunk: (String, u64),
)
    requires
        call_ensures(TableDeleteRun::take_reference_rows, (run, ref_rows), r),
        *sync == old(run).sync,
        *setup == old(run).setup,
        batch@ == old(run).batch(),
        reference@ == ref_rows@,
        call_ensures(TableDeleteSync::check_chunk, (sync, setup, batch, reference, old(run).deleted == 0), chunk),
    ensures
        r is Err <==> old(run).sync.cancelled,
        r matches Ok(out) ==> {
            &&& out@ == chunk.0@
            &&& final(run).deleted == old(run).deleted + chunk.1
            &&& final(run).phase is Done <==> final(run).checked >= old(run).pending@.len()
            &&& final(run).pending == old(run).pending
        },
{
}

/// The steps of a comparison keep the tables, their columns and keys, and the chunks.
pub proof fn a_comparison_keeps_its_task(
    run: &mut TableDiffRun,
    reference: Vec<HashedKey>,
    target: Vec<HashedKey>,
    other: &mut TableDiffRun,
    rows: Vec<Row>,
    third: &mut TableDiffRun,
    target_rows: Vec<Row>,
    r: Result<ChunkOutput, DataDiffError>,
)
    requires
        call_ensures(TableDiffRun::take_hashes, (run, reference, target), ()),
        call_ensures(TableDiffRun::take_rows, (other, rows), ()),
        call_ensures(TableDiffRun::take_target_rows, (third, target_rows), r),
    ensures
        final(run).diff == old(run).diff && final(run).setup == old(run).setup && final(run).exclude == old(run).exclude,
        final(run).bounds == old(run).bounds && final(run).timestamp_column == old(run).timestamp_column,
        final(other).diff == old(other).diff && final(other).setup == old(other).setup && final(other).exclude
            == old(other).exclude,
        final(other).bounds == old(other).bounds && final(other).timestamp_column == old(other).timestamp_column,
        final(third).diff == old(third).diff && final(third).setup == old(third).setup && final(third).exclude
            == old(third).exclude,
        final(third).bounds == old(third).bounds && final(third).timestamp_column == old(third).timestamp_column,
{
}

/// The steps of a run keep its configuration, its pairs of tables and their analyses.
pub proof fn a_run_keeps_its_task(
    run: &mut DataDiffRun,
    outcome: Result<DiffStats, DataDiffError>,
    r: Result<(), DataDiffError>,
    other: &mut DataDiffRun,
    deletes: Result<u64, DataDiffError>,
    q: Result<(), DataDiffError>,
)
    requires
        call_ensures(DataDiffRun::take_diff, (run, outcome), r),
        call_ensures(DataDiffRun::take_delete, (other, deletes), q),
    ensures
        final(run).config == old(run).config && final(run).pairs == old(run).pairs && final(run).analyses == old(
            run,
        ).analyses,
        final(other).config == old(other).config && final(other).pairs == old(other).pairs && final(other).analyses
            == old(other).analyses,
        final(run).cancelled == old(run).cancelled && final(other).cancelled == old(other).cancelled,
{
}

/// Headers name the table without its schema, in a remark of a line of its own.
pub proof fn headers_name_the_table(name: &str, header: String, delete_header: String)
    requires
        call_ensures(table_diff::write_header, (name,), header),
        call_ensures(delete_sync::write_delete_header, (name,), delete_header),
    ensures
        text::has_part(header@, "-- Data diff for table: "@ + config::table_part(name@) + "\n"@),
        text::has_part(delete_header@, "-- DELETE statements for table: "@ + config::table_part(name@) + "\n"@),
{
    let line = "-- ----------------------------------------------------------------\n"@;
    let table = config::table_part(name@);
    reveal_strlit("-- ----------------------------------------------------------------\n");
    reveal_strlit("\n");
    reveal_strlit("\n-- ----------------------------------------------------------------\n");
    reveal_strlit("-- ----------------------------------------------------------------\n-- Data diff for table: ");
    reveal_strlit("-- Data diff for table: ");
    reveal_strlit("-- ----------------------------------------------------------------\n-- DELETE statements for table: ");
    reveal_strlit("-- DELETE statements for table: ");
    let part = "-- Data diff for table: "@ + table + "\n"@;
    assert(header@ =~= line + part + line);
    text_laws::a_part_stands_in_the_text(line, part, line);
    let part = "-- DELETE statements for table: "@ + table + "\n"@;
    assert(delete_header@ =~= line + part + line);
    text_laws::a_part_stands_in_the_text(line, part, line);
}

/// A run that was not cancelled gives a master script, unless all goes into a single file, and names
/// its file unless it is streamed; a stream names no files at all. The warnings are kept.
pub proof fn a_run_ends_with_its_report(run: DataDiffRun, r: (DiffReport, Option<String>), i: int)
    requires
        call_ensures(DataDiffRun::finish, (run,), r),
        0 <= i < run.report.tables@.len(),
    ensures
        r.1 is Some <==> !run.cancelled && (run.config.to_stream || !run.config.single_file),
        r.0.master_script is Some <==> !run.cancelled && !run.config.to_stream,
        r.0.warnings == run.report.warnings,
        r.0.tables@.len() == run.report.tables@.len(),
        r.0.tables@[i].table_name@ == run.report.tables@[i].table_name@,
        r.0.tables@[i].inserts == run.report.tables@[i].inserts,
        r.0.tables@[i].updates == run.report.tables@[i].updates,
        r.0.tables@[i].deletes == run.report.tables@[i].deletes,
        run.config.to_stream ==> r.0.tables@[i].insert_file is None && r.0.tables@[i].update_file is None
            && r.0.tables@[i].delete_file is None,
        !run.config.to_stream ==> r.0.tables@[i] == run.report.tables@[i],
{
}

/// The rows of a table to delete are counted in its report, and a table without a key is passed
/// over; any other error ends the run and changes nothing.
pub proof fn deleted_rows_are_counted(
    run: &mut DataDiffRun,
    outcome: Result<u64, DataDiffError>,
    r: Result<(), DataDiffError>,
)
    requires
        call_ensures(DataDiffRun::take_delete, (run, outcome), r),
    ensures
        r is Err <==> outcome is Err && !(outcome->Err_0 is NoPrimaryKey),
        r is Err ==> *final(run) == *old(run),
        r is Ok ==> {
            let last = final(run).report.tables@.last();
            &&& final(run).report.tables@.len() == old(run).report.tables@.len() + 1
            &&& last.inserts == old(run).current.inserts
            &&& last.updates == old(run).current.updates
            &&& outcome is Ok ==> last.deletes == outcome->Ok_0
            &&& outcome is Err ==> last.deletes == old(run).current.deletes
        },
{
}

/// The next table is compared under the names of its pair, as configured, unless the run was
/// cancelled.
pub proof fn the_next_table_is_compared_under_its_names(
    run: &DataDiffRun,
    r: Result<TableTask, DataDiffError>,
    name: Seq<char>,
)
    requires
        call_ensures(DataDiffRun::table_task, (run,), r),
    ensures
        r is Err <==> run.cancelled,
        r matches Ok(task) ==> {
            &&& task.diff.ref_table@ == run.pair().reference@
            &&& task.diff.target_table@ == run.pair().target@
            &&& task.diff.chunk_size >= 1
            &&& run.config.columns_to_ignore@.contains(name) ==> task.diff.columns_to_ignore@.contains(
                outside::lowercase_text(name),
            )
            &&& run.config.exclude_ignored_columns ==> task.diff.exclude_columns@ == task.diff.columns_to_ignore@
            &&& !run.config.exclude_ignored_columns ==> !task.diff.exclude_columns@.contains(name)
            &&& task.diff.exclude_real_pk == run.config.exclude_real_pk
            &&& task.diff.include_identity_columns == run.config.include_identity_columns
            &&& task.table_index == run.report.tables@.len()
            &&& task.total_tables == run.pairs@.len()
        },
{
    if let Ok(task) = r {
        report_laws::a_table_is_compared_as_configured(
            task.diff,
            run.config,
            run.pair(),
            run.analyses@,
            name,
        );
    }
}

/// Rows are deleted from the target of the pair, and looked for in its reference.
pub proof fn rows_are_deleted_from_the_target(run: &DataDiffRun, r: TableDeleteSync)
    requires
        call_ensures(DataDiffRun::delete_task, (run,), r),
    ensures
        r.target_table@ == run.pair().target@,
        r.ref_table@ == run.pair().reference@,
        r.chunk_size >= 1,
        run.config.chunk_size >= 1 ==> r.chunk_size == run.config.chunk_size,
        !r.cancelled,
{
}

/// The tables that are found are paired by their names, in the schema of the reference and in that
/// of the target, which is the same where no other is named.
pub proof fn tables_that_are_found_are_paired(run: &mut DataDiffRun, names: &[String], i: int)
    requires
        call_ensures(DataDiffRun::take_tables, (run, names), ()),
        0 <= i < names@.len(),
    ensures
        final(run).pairs@.len() == names@.len(),
        final(run).pairs@[i].reference@ == old(run).config.reference_schema->0@ + "."@ + names@[i]@,
        final(run).pairs@[i].target@ == match old(run).config.target_schema {
            Some(schema) => schema@,
            None => old(run).config.reference_schema->0@,
        } + "."@ + names@[i]@,
{
    assert(data_diff::is_pair(final(run).pairs@[i], data_diff::discovered_names(
        old(run).config.reference_schema->0@,
        old(run).config.target_schema,
        names@[i]@,
    )));
}

/// Pairs whose table of the reference does not match are left out, and one warning is given for
/// each table that does not match.
pub proof fn tables_that_do_not_match_are_left_out(
    run: &mut DataDiffRun,
    results: &TextMap<SchemaComparisonResult>,
    r: Vec<(String, String)>,
    pair: TablePair,
    names: Seq<Seq<char>>,
)
    requires
        call_ensures(DataDiffRun::take_schema_results, (run, results), r),
        results.valid(),
        collections::ascending(names),
        forall|n: Seq<char>| #[trigger] names.contains(n) <==> results@.contains_key(n) && results@[n] is Mismatch,
    ensures
        ({
            let table = config::table_part(pair.reference@);
            final(run).pairs@.contains(pair) <==> old(run).pairs@.contains(pair) && !(results@.contains_key(table)
                && results@[table] is Mismatch)
        }),
        final(run).report.warnings@.len() == old(run).report.warnings@.len() + names.len(),
{
    collections::lemma_filter_has(old(run).pairs@, data_diff::is_active(results@), pair);
    report_laws::tables_are_warned_of_where_they_do_not_match(*results, names, 0);
    let before = text::texts(old(run).report.warnings@);
    let after = text::texts(final(run).report.warnings@);
    assert(before.len() == old(run).report.warnings@.len());
    assert(after.len() == final(run).report.warnings@.len());
}

/// An estimate above the limit ends the run, unless it is forced.
pub proof fn a_long_run_has_to_be_forced(
    exceeds: bool,
    force: bool,
    total: &str,
    hours: &str,
    max: &str,
    r: Result<(), DataDiffError>,
)
    requires
        call_ensures(estimation::check_estimate, (exceeds, force, total, hours, max), r),
    ensures
        r is Ok <==> force || !exceeds,
        r matches Err(e) ==> e is Config,
{
}

/// The checksums of a table are those of its chunks, in their order, and the hash of a row is that
/// which was read last for its key.
pub proof fn checksums_are_those_of_the_chunks(
    table: &str,
    analysis: &TableAnalysis,
    offsets: &[i64],
    hashes: &[Vec<HashedKey>],
    r: Option<TableChecksum>,
    i: int,
    k: Seq<char>,
)
    requires
        call_ensures(checksum::compute_table_checksums, (table, analysis, offsets, hashes), r),
        0 <= i < hashes@.len(),
    ensures
        r matches Some(t) ==> {
            let map = table_diff::md5_map(hashes@[i]@);
            &&& t.table_name@ == config::table_part(table@)
            &&& t.row_count == analysis.row_count
            &&& t.chunks@.len() == hashes@.len()
            &&& t.chunks@[i].chunk_index == i
            &&& t.chunks@[i].row_hashes@.contains_key(k) <==> map.contains_key(k)
            &&& map.contains_key(k) ==> t.chunks@[i].row_hashes@[k]@ == map[k]
        },
{
    if let Some(t) = r {
        assert(checksum::holds_hashes(t.chunks@[i], i, analysis.strategy, offsets@, hashes@[i]@));
    }
}

} // verus!
