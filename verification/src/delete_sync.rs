//! DELETE statements for the rows of one table.

use vstd::prelude::*;

use crate::chunk_strategy;
use crate::config;
use crate::error::DataDiffError;
use crate::metadata;
use crate::sql_gen;
use crate::table_diff;
use crate::types;
use crate::types::{ColumnInfo, Row, RowValue};

verus! {

/// Generates DELETE statements for rows that exist in the target table
/// but are missing from the reference table.
#[derive(Debug)]
pub struct TableDeleteSync {
    pub target_table: String,
    pub ref_table: String,
    pub chunk_size: usize,
    pub alternate_keys: Option<Vec<String>>,
    /// Additional WHERE condition for the reference table query.
    pub table_where: Option<String>,
    pub cancelled: bool,
}

/// The key columns of the target, and the same columns of the reference.
#[derive(Debug)]
pub struct DeleteSetup {
    pub pk_cols: Vec<ColumnInfo>,
    pub ref_pk_cols: Vec<ColumnInfo>,
}

impl DeleteSetup {
    /// Whether there is a key, and the reference has each of its columns.
    pub open spec fn valid(self) -> bool {
        &&& self.pk_cols@.len() > 0
        &&& self.ref_pk_cols@.len() == self.pk_cols@.len()
    }
}

/// Whether the reference has each of the key columns.
pub open spec fn has_keys(ref_columns: Seq<ColumnInfo>, pk_cols: Seq<ColumnInfo>) -> bool {
    forall|k: int| 0 <= k < pk_cols.len() ==> types::has_column(ref_columns, (#[trigger] pk_cols[k]).name@)
}

/// The columns of the reference that have the names of the key columns.
pub open spec fn matching_columns(ref_columns: Seq<ColumnInfo>, pk_cols: Seq<ColumnInfo>) -> Seq<ColumnInfo> {
    Seq::new(pk_cols.len(), |k: int| ref_columns[types::column_index(ref_columns, pk_cols[k].name@)])
}

/// Whether a row of key values is the same as another.
pub open spec fn same_values(a: Seq<RowValue>, b: Seq<RowValue>, n: int) -> bool {
    forall|i: int| #![trigger a[i]] 0 <= i < n ==> types::values_equal(a[i], b[i])
}

/// Whether a row of key values is not among others.
pub open spec fn is_missing(others: Seq<Row>, n: int) -> spec_fn(Row) -> bool {
    |row: Row| forall|j: int| 0 <= j < others.len() ==> !same_values(row@, (#[trigger] others[j])@, n)
}

/// The keys that are to be deleted: those of the target that the reference has not.
pub open spec fn deleted_rows(target_rows: Seq<Row>, ref_rows: Seq<Row>, n: int) -> Seq<Row> {
    target_rows.filter(is_missing(ref_rows, n))
}

/// The DELETE statements for keys.
pub open spec fn delete_statements(table: Seq<char>, pk_cols: Seq<ColumnInfo>, rows: Seq<Row>) -> Seq<Seq<char>> {
    rows.map_values(|row: Row| sql_gen::delete_statement(table, pk_cols, pk_cols, row@))
}

/// The lines that start the DELETE statements for a table.
pub open spec fn delete_header(table: Seq<char>) -> Seq<char> {
    "-- ----------------------------------------------------------------\n-- DELETE statements for table: "@
        + config::table_part(table)
        + "\n-- ----------------------------------------------------------------\n"@
}

/// The lines that start the DELETE statements for a table.
pub fn write_delete_header(table_name: &str) -> (r: String)
    ensures
        r@ == delete_header(table_name@),
{
    let (_, table) = config::parse_table_name(table_name);
    let mut out =
        "-- ----------------------------------------------------------------\n-- DELETE statements for table: ".to_owned();
    out.append(table);
    out.append("\n-- ----------------------------------------------------------------\n");
    out
}

/// Whether a row of key values is not among others.
fn find_missing(row: &Row, others: &[Row], n: usize) -> (r: bool)
    requires
        n <= row@.len(),
        forall|j: int| 0 <= j < others@.len() ==> n <= (#[trigger] others@[j])@.len(),
    ensures
        r == is_missing(others@, n as int)(*row),
{
    for j in 0..others.len()
        invariant
            n <= row@.len(),
            forall|j: int| 0 <= j < others@.len() ==> n <= (#[trigger] others@[j])@.len(),
            forall|i: int| 0 <= i < j ==> !same_values(row@, (#[trigger] others@[i])@, n as int),
    {
        let other = &others[j];
        let mut same = true;
        for i in 0..n
            invariant
                n <= row@.len(),
                n <= other@.len(),
                same == forall|k: int| #![trigger row@[k]] 0 <= k < i ==> types::values_equal(row@[k], other@[k]),
        {
            if !row[i].same(&other[i]) {
                same = false;
            }
        }
        if same {
            assert(same_values(row@, others@[j as int]@, n as int));
            return false;
        }
    }
    true
}

impl TableDeleteSync {
    pub fn new(target_table: String, ref_table: String) -> (r: TableDeleteSync)
        ensures
            r == (TableDeleteSync {
                target_table,
                ref_table,
                chunk_size: 50,
                alternate_keys: None,
                table_where: None,
                cancelled: false,
            }),
    {
        TableDeleteSync {
            target_table,
            ref_table,
            chunk_size: 50,
            alternate_keys: None,
            table_where: None,
            cancelled: false,
        }
    }

    pub fn set_chunk_size(&mut self, size: usize)
        ensures
            final(self).chunk_size == if size == 0 { 1 } else { size as int },
            *final(self) == (TableDeleteSync { chunk_size: final(self).chunk_size, ..*old(self) }),
    {
        self.chunk_size = if size == 0 {
            1
        } else {
            size
        };
    }

    pub fn set_alternate_keys(&mut self, keys: Option<Vec<String>>)
        ensures
            *final(self) == (TableDeleteSync { alternate_keys: keys, ..*old(self) }),
    {
        self.alternate_keys = keys;
    }

    pub fn set_table_where(&mut self, condition: Option<String>)
        ensures
            chunk_strategy::owned_text_of(final(self).table_where) == table_diff::bare_filter(condition),
            *final(self) == (TableDeleteSync { table_where: final(self).table_where, ..*old(self) }),
    {
        self.table_where = table_diff::make_filter(&condition);
    }

    pub fn cancel(&mut self)
        ensures
            *final(self) == (TableDeleteSync { cancelled: true, ..*old(self) }),
    {
        self.cancelled = true;
    }

    /// Determine the key columns from the target table, and the same columns of the reference.
    pub fn setup(
        &self,
        target_columns: &[ColumnInfo],
        ref_columns: &[ColumnInfo],
    ) -> (r: Result<DeleteSetup, DataDiffError>)
        ensures
            ({
                let keys = metadata::key_columns(
                    target_columns@,
                    table_diff::owned_list(self.alternate_keys),
                );
                match r {
                    Ok(setup) => setup.valid() && setup.pk_cols@ == keys && has_keys(ref_columns@, keys)
                        && setup.ref_pk_cols@ == matching_columns(ref_columns@, keys),
                    Err(DataDiffError::NoPrimaryKey(t)) => keys.len() == 0 && t@ == self.target_table@,
                    Err(DataDiffError::ColumnMismatch { ref_table, target_table }) => keys.len() > 0
                        && !has_keys(ref_columns@, keys) && ref_table@ == self.ref_table@ && target_table@
                        == self.target_table@,
                    Err(_) => false,
                }
            }),
    {
        let alternate = match &self.alternate_keys {
            Some(keys) => Some(keys.as_slice()),
            None => None,
        };
        let (pk_cols, _real) = metadata::resolve_pk_columns(target_columns, alternate);
        if pk_cols.len() == 0 {
            return Err(DataDiffError::NoPrimaryKey(self.target_table.clone()));
        }
        let ghost keys = pk_cols@;
        let mut ref_pk_cols: Vec<ColumnInfo> = Vec::new();
        for k in 0..pk_cols.len()
            invariant
                keys == pk_cols@,
                keys.len() > 0,
                keys == metadata::key_columns(
                    target_columns@,
                    table_diff::owned_list(self.alternate_keys),
                ),
                forall|j: int| 0 <= j < k ==> types::has_column(ref_columns@, (#[trigger] keys[j]).name@),
                ref_pk_cols@ == matching_columns(ref_columns@, keys).take(k as int),
        {
            match types::find_column(ref_columns, pk_cols[k].name.as_str()) {
                Some(i) => {
                    ref_pk_cols.push(ref_columns[i].duplicate());
                    assert(ref_pk_cols@ =~= matching_columns(ref_columns@, keys).take(k + 1));
                },
                None => {
                    assert(!types::has_column(ref_columns@, keys[k as int].name@));
                    return Err(
                        DataDiffError::ColumnMismatch {
                            ref_table: self.ref_table.clone(),
                            target_table: self.target_table.clone(),
                        },
                    );
                },
            }
        }
        assert(matching_columns(ref_columns@, keys).take(keys.len() as int) =~= matching_columns(
            ref_columns@,
            keys,
        ));
        Ok(DeleteSetup { pk_cols, ref_pk_cols })
    }

    /// Check a chunk of target PK rows against the reference rows that were found for them.
    /// Returns the DELETE statements, and how many there are.
    pub fn check_chunk(
        &self,
        setup: &DeleteSetup,
        target_pk_rows: &[Row],
        ref_rows: &[Row],
        first_delete: bool,
    ) -> (r: (String, u64))
        requires
            setup.valid(),
            table_diff::rows_fit(target_pk_rows@, setup.pk_cols@),
            table_diff::rows_fit(ref_rows@, setup.pk_cols@),
            target_pk_rows@.len() <= u64::MAX,
        ensures
            ({
                let deleted = deleted_rows(target_pk_rows@, ref_rows@, setup.pk_cols@.len() as int);
                &&& r.0@ == table_diff::script(
                    delete_header(self.target_table@),
                    delete_statements(self.target_table@, setup.pk_cols@, deleted),
                    "\n"@,
                    first_delete,
                )
                &&& r.1 == deleted.len()
            }),
    {
        let n: usize = setup.pk_cols.len();
        let ghost keep = is_missing(ref_rows@, n as int);
        let ghost table = self.target_table@;
        let ghost head = delete_header(table);
        let mut out = String::new();
        let mut deleted: u64 = 0;
        proof {
            reveal(Seq::filter);
            assert(target_pk_rows@.take(0).filter(keep) =~= Seq::<Row>::empty());
            assert(delete_statements(table, setup.pk_cols@, Seq::empty()).len() == 0);
            assert(out@ =~= Seq::<char>::empty());
        }
        for i in 0..target_pk_rows.len()
            invariant
                setup.valid(),
                n == setup.pk_cols@.len(),
                table_diff::rows_fit(target_pk_rows@, setup.pk_cols@),
                table_diff::rows_fit(ref_rows@, setup.pk_cols@),
                target_pk_rows@.len() <= u64::MAX,
                keep == is_missing(ref_rows@, n as int),
                table == self.target_table@,
                head == delete_header(table),
                deleted <= i,
                deleted == target_pk_rows@.take(i as int).filter(keep).len(),
                out@ == table_diff::script(
                    head,
                    delete_statements(
                        table,
                        setup.pk_cols@,
                        target_pk_rows@.take(i as int).filter(keep),
                    ),
                    "\n"@,
                    first_delete,
                ),
        {
            let row = &target_pk_rows[i];
            let ghost less = target_pk_rows@.take(i as int);
            let ghost before = delete_statements(table, setup.pk_cols@, less.filter(keep));
            proof {
                assert(target_pk_rows@.take(i + 1) =~= less.push(*row));
                less.lemma_filter_push(*row, keep);
            }
            if find_missing(row, ref_rows, n) {
                if first_delete && deleted == 0 {
                    out.append(write_delete_header(self.target_table.as_str()).as_str());
                }
                proof {
                    assert forall|k: int|
                        #![trigger setup.pk_cols@[k]]
                        0 <= k < setup.pk_cols@.len() implies types::has_column(
                        setup.pk_cols@,
                        setup.pk_cols@[k].name@,
                    ) by {
                        types::lemma_column_index(setup.pk_cols@, setup.pk_cols@[k].name@);
                        assert(types::column_is(setup.pk_cols@[k], setup.pk_cols@[k].name@));
                    }
                }
                let sql = sql_gen::generate_delete(
                    self.target_table.as_str(),
                    setup.pk_cols.as_slice(),
                    setup.pk_cols.as_slice(),
                    row.as_slice(),
                );
                let mut line = sql.clone();
                line.append("\n");
                proof {
                    let more = delete_statements(table, setup.pk_cols@, less.filter(keep).push(*row));
                    assert(more =~= before.push(sql@));
                    table_diff::lemma_script_push(head, before, sql@, "\n"@, first_delete);
                    let written = table_diff::script(head, before, "\n"@, first_delete);
                    assert(written + Seq::<char>::empty() =~= written);
                }
                out.append(line.as_str());
                deleted = deleted + 1;
            }
        }
        assert(target_pk_rows@.take(target_pk_rows@.len() as int) =~= target_pk_rows@);
        (out, deleted)
    }
}

/// What a run does next.
#[derive(Clone, Copy, Debug, PartialEq, Eq, Structural)]
pub enum DeletePhase {
    /// Fetch the keys of the target.
    Keys,
    /// Look keys up in the reference.
    Check,
    /// Nothing.
    Done,
}

/// What is to be fetched next.
#[derive(Debug)]
pub enum DeleteAction {
    /// The keys of the target.
    FetchKeys { sql: String },
    /// Keys from the reference.
    FetchReference { sql: String },
    /// Nothing: so many rows are to be deleted.
    Finish(u64),
}

/// A search for rows to delete that is under way.
#[derive(Debug)]
pub struct TableDeleteRun {
    pub sync: TableDeleteSync,
    pub setup: DeleteSetup,
    /// The keys of the target, and how many of them have been looked up.
    pub pending: Vec<Row>,
    pub checked: usize,
    pub phase: DeletePhase,
    pub deleted: u64,
}

impl TableDeleteSync {
    /// Starts the delete sync, for DELETE SQL statements for rows
    /// in the target that are missing from the reference.
    pub fn execute(self, setup: DeleteSetup) -> (r: TableDeleteRun)
        requires
            setup.valid(),
            self.chunk_size > 0,
        ensures
            r.valid(),
            r.sync == self,
            r.setup == setup,
            r.phase is Keys,
            r.deleted == 0,
    {
        TableDeleteRun {
            sync: self,
            setup,
            pending: Vec::new(),
            checked: 0,
            phase: DeletePhase::Keys,
            deleted: 0,
        }
    }
}

impl TableDeleteRun {
    /// Whether the parts of the run fit together.
    pub open spec fn valid(self) -> bool {
        &&& self.setup.valid()
        &&& self.sync.chunk_size > 0
        &&& table_diff::rows_fit(self.pending@, self.setup.pk_cols@)
        &&& self.checked <= self.pending@.len()
        &&& self.phase is Check ==> self.checked < self.pending@.len()
        &&& self.phase is Keys ==> self.pending@.len() == 0
        &&& self.deleted <= self.checked
    }

    /// The keys that are looked up next.
    pub open spec fn batch(self) -> Seq<Row> {
        self.pending@.subrange(
            self.checked as int,
            table_diff::batch_end(
                self.checked as int,
                self.sync.chunk_size as int,
                self.pending@.len() as int,
            ),
        )
    }

    fn find_batch_end(&self) -> (r: usize)
        requires
            self.checked <= self.pending@.len(),
        ensures
            r == table_diff::batch_end(
                self.checked as int,
                self.sync.chunk_size as int,
                self.pending@.len() as int,
            ),
    {
        let total: usize = self.pending.len();
        if total - self.checked <= self.sync.chunk_size {
            total
        } else {
            self.checked + self.sync.chunk_size
        }
    }

    /// What is to be fetched next. The condition on the reference is part of the lookups. Where
    /// the search was cancelled no keys are looked up.
    pub fn action(&self) -> (r: Result<DeleteAction, DataDiffError>)
        requires
            self.valid(),
        ensures
            r is Err <==> self.sync.cancelled && self.phase is Check,
            r matches Err(e) ==> e is Cancelled,
            r matches Ok(action) ==> match self.phase {
                DeletePhase::Keys => action matches DeleteAction::FetchKeys { sql } && sql@
                    == sql_gen::fetch_statement(self.sync.target_table@, self.setup.pk_cols@),
                DeletePhase::Check => action matches DeleteAction::FetchReference { sql } && sql@
                    == sql_gen::reference_keys_statement(
                    self.sync.ref_table@,
                    self.setup.ref_pk_cols@,
                    self.batch(),
                    chunk_strategy::owned_text_of(self.sync.table_where),
                ),
                DeletePhase::Done => action == DeleteAction::Finish(self.deleted),
            },
    {
        match self.phase {
            DeletePhase::Keys => Ok(
                DeleteAction::FetchKeys {
                    sql: sql_gen::build_fetch(
                        self.sync.target_table.as_str(),
                        self.setup.pk_cols.as_slice(),
                    ),
                },
            ),
            DeletePhase::Check => {
                if self.sync.cancelled {
                    return Err(DataDiffError::Cancelled);
                }
                let end: usize = self.find_batch_end();
                let rows = &self.pending[self.checked..end];
                proof {
                    assert(rows@ =~= self.batch());
                    assert forall|i: int| 0 <= i < rows@.len() implies self.setup.ref_pk_cols@.len() <= (
                    #[trigger] rows@[i])@.len() by {
                        assert(rows@[i] == self.pending@[self.checked + i]);
                    }
                }
                Ok(
                    DeleteAction::FetchReference {
                        sql: sql_gen::build_reference_keys_query(
                            self.sync.ref_table.as_str(),
                            self.setup.ref_pk_cols.as_slice(),
                            rows,
                            chunk_strategy::borrowed(&self.sync.table_where),
                        ),
                    },
                )
            },
            DeletePhase::Done => Ok(DeleteAction::Finish(self.deleted)),
        }
    }

    /// Takes the keys of the target.
    pub fn take_keys(&mut self, rows: Vec<Row>)
        requires
            old(self).valid(),
            old(self).phase is Keys,
            table_diff::rows_fit(rows@, old(self).setup.pk_cols@),
        ensures
            final(self).valid(),
            *final(self) == (TableDeleteRun {
                pending: rows,
                phase: if rows@.len() == 0 {
                    DeletePhase::Done
                } else {
                    DeletePhase::Check
                },
                ..*old(self)
            }),
    {
        self.phase = if rows.len() == 0 {
            DeletePhase::Done
        } else {
            DeletePhase::Check
        };
        self.pending = rows;
    }

    /// Takes the keys that the reference has of those that were looked up, and says what is to
    /// be written.
    pub fn take_reference_rows(&mut self, ref_rows: Vec<Row>) -> (r: Result<String, DataDiffError>)
        requires
            old(self).valid(),
            old(self).phase is Check,
            table_diff::rows_fit(ref_rows@, old(self).setup.pk_cols@),
        ensures
            final(self).valid(),
            ({
                let deleted = deleted_rows(
                    old(self).batch(),
                    ref_rows@,
                    old(self).setup.pk_cols@.len() as int,
                );
                let end = table_diff::batch_end(
                    old(self).checked as int,
                    old(self).sync.chunk_size as int,
                    old(self).pending@.len() as int,
                );
                match r {
                    Ok(out) => {
                        &&& !old(self).sync.cancelled
                        &&& out@ == table_diff::script(
                            delete_header(old(self).sync.target_table@),
                            delete_statements(
                                old(self).sync.target_table@,
                                old(self).setup.pk_cols@,
                                deleted,
                            ),
                            "\n"@,
                            old(self).deleted == 0,
                        )
                        &&& final(self).deleted == old(self).deleted + deleted.len()
                        &&& final(self).checked == end
                        &&& final(self).phase == if end < old(self).pending@.len() {
                            DeletePhase::Check
                        } else {
                            DeletePhase::Done
                        }
                        &&& *final(self) == (TableDeleteRun {
                            deleted: final(self).deleted,
                            checked: final(self).checked,
                            phase: final(self).phase,
                            ..*old(self)
                        })
                    },
                    Err(e) => old(self).sync.cancelled && e is Cancelled && *final(self) == *old(self),
                }
            }),
    {
        if self.sync.cancelled {
            return Err(DataDiffError::Cancelled);
        }
        let end: usize = self.find_batch_end();
        let rows = &self.pending[self.checked..end];
        proof {
            assert(rows@ =~= self.batch());
            assert forall|i: int| 0 <= i < rows@.len() implies (#[trigger] rows@[i])@.len()
                == self.setup.pk_cols@.len() by {
                assert(rows@[i] == self.pending@[self.checked + i]);
            }
            let keep = is_missing(ref_rows@, self.setup.pk_cols@.len() as int);
            rows@.lemma_filter_len(keep);
        }
        let (out, count) = self.sync.check_chunk(&self.setup, rows, ref_rows.as_slice(), self.deleted == 0);
        self.deleted = self.deleted + count;
        self.checked = end;
        if end == self.pending.len() {
            self.phase = DeletePhase::Done;
        }
        Ok(out)
    }
}

/// A row is deleted exactly where the reference has no row with its key.
pub proof fn deleted_rows_are_missing(target_rows: Seq<Row>, ref_rows: Seq<Row>, n: int, row: Row)
    ensures
        deleted_rows(target_rows, ref_rows, n).contains(row) <==> target_rows.contains(row) && forall|j: int|
            0 <= j < ref_rows.len() ==> !same_values(row@, (#[trigger] ref_rows[j])@, n),
{
    let keep = is_missing(ref_rows, n);
    if target_rows.contains(row) && keep(row) {
        target_rows.lemma_filter_contains(keep, target_rows.index_of(row));
    }
    if target_rows.filter(keep).contains(row) {
        target_rows.lemma_filter_contains_rev(keep, row);
        let i = target_rows.filter(keep).index_of(row);
        target_rows.lemma_filter_pred(keep, i);
    }
}

} // verus!
