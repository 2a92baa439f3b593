//! One file with the SQL of all tables.

use vstd::prelude::*;

verus! {

/// The SQL of a table.
#[derive(Debug)]
pub struct TableSql {
    pub inserts: String,
    pub updates: String,
    pub deletes: String,
}

/// The INSERT and UPDATE statements of tables, in an order of them.
pub open spec fn all_changes(tables: Seq<TableSql>, places: Seq<usize>) -> Seq<char>
    decreases places.len(),
{
    if places.len() == 0 {
        Seq::empty()
    } else {
        let t = tables[places.last() as int];
        all_changes(tables, places.drop_last()) + t.inserts@ + t.updates@
    }
}

/// The DELETE statements of tables, in an order of them.
pub open spec fn all_deletes(tables: Seq<TableSql>, places: Seq<usize>) -> Seq<char>
    decreases places.len(),
{
    if places.len() == 0 {
        Seq::empty()
    } else {
        all_deletes(tables, places.drop_last()) + tables[places.last() as int].deletes@
    }
}

/// What a single file holds: what is inserted and updated, in one order of the tables, and then
/// what is deleted, in another.
pub open spec fn single_file(
    tables: Seq<TableSql>,
    insert_places: Seq<usize>,
    delete_places: Seq<usize>,
) -> Seq<char> {
    all_changes(tables, insert_places) + all_deletes(tables, delete_places)
}

/// Writes the SQL of tables into one text.
pub fn write_single_file(tables: &[TableSql], insert_places: &[usize], delete_places: &[usize]) -> (r: String)
    requires
        forall|k: int| 0 <= k < insert_places@.len() ==> #[trigger] insert_places@[k] < tables@.len(),
        forall|k: int| 0 <= k < delete_places@.len() ==> #[trigger] delete_places@[k] < tables@.len(),
    ensures
        r@ == single_file(tables@, insert_places@, delete_places@),
{
    let mut out = String::new();
    for k in 0..insert_places.len()
        invariant
            out@ == all_changes(tables@, insert_places@.take(k as int)),
            forall|k: int| 0 <= k < insert_places@.len() ==> #[trigger] insert_places@[k] < tables@.len(),
    {
        let t = &tables[insert_places[k]];
        out.append(t.inserts.as_str());
        out.append(t.updates.as_str());
        assert(insert_places@.take(k + 1).drop_last() =~= insert_places@.take(k as int));
    }
    assert(insert_places@.take(insert_places@.len() as int) =~= insert_places@);
    let ghost changes = out@;
    for k in 0..delete_places.len()
        invariant
            out@ == changes + all_deletes(tables@, delete_places@.take(k as int)),
            forall|k: int| 0 <= k < delete_places@.len() ==> #[trigger] delete_places@[k] < tables@.len(),
    {
        out.append(tables[delete_places[k]].deletes.as_str());
        assert(delete_places@.take(k + 1).drop_last() =~= delete_places@.take(k as int));
        assert(out@ =~= changes + all_deletes(tables@, delete_places@.take(k + 1)));
    }
    assert(delete_places@.take(delete_places@.len() as int) =~= delete_places@);
    out
}

proof fn lemma_changes_in_parts(tables: Seq<TableSql>, a: Seq<usize>, b: Seq<usize>)
    ensures
        all_changes(tables, a + b) == all_changes(tables, a) + all_changes(tables, b),
    decreases b.len(),
{
    if b.len() == 0 {
        assert(a + b =~= a);
        assert(all_changes(tables, a) + all_changes(tables, b) =~= all_changes(tables, a));
    } else {
        lemma_changes_in_parts(tables, a, b.drop_last());
        assert((a + b).drop_last() =~= a + b.drop_last());
        let t = tables[b.last() as int];
        assert(all_changes(tables, a) + all_changes(tables, b) =~= all_changes(tables, a) + all_changes(
            tables,
            b.drop_last(),
        ) + t.inserts@ + t.updates@);
    }
}

proof fn lemma_deletes_in_parts(tables: Seq<TableSql>, a: Seq<usize>, b: Seq<usize>)
    ensures
        all_deletes(tables, a + b) == all_deletes(tables, a) + all_deletes(tables, b),
    decreases b.len(),
{
    if b.len() == 0 {
        assert(a + b =~= a);
        assert(all_deletes(tables, a) + all_deletes(tables, b) =~= all_deletes(tables, a));
    } else {
        lemma_deletes_in_parts(tables, a, b.drop_last());
        assert((a + b).drop_last() =~= a + b.drop_last());
        let t = tables[b.last() as int];
        assert(all_deletes(tables, a) + all_deletes(tables, b) =~= all_deletes(tables, a) + all_deletes(
            tables,
            b.drop_last(),
        ) + t.deletes@);
    }
}

/// A single file holds the statements of each table, whole and in one piece: what is inserted and
/// updated after that of the tables before it and before that of the tables after it, and what is
/// deleted likewise.
pub proof fn a_single_file_holds_each_table(tables: Seq<TableSql>, places: Seq<usize>, k: int)
    requires
        0 <= k < places.len(),
    ensures
        ({
            let t = tables[places[k] as int];
            &&& all_changes(tables, places) == all_changes(tables, places.take(k)) + t.inserts@ + t.updates@
                + all_changes(tables, places.skip(k + 1))
            &&& all_deletes(tables, places) == all_deletes(tables, places.take(k)) + t.deletes@ + all_deletes(
                tables,
                places.skip(k + 1),
            )
        }),
{
    let before = places.take(k + 1);
    assert(before.drop_last() =~= places.take(k));
    assert(places =~= before + places.skip(k + 1));
    lemma_changes_in_parts(tables, before, places.skip(k + 1));
    lemma_deletes_in_parts(tables, before, places.skip(k + 1));
}

} // verus!
