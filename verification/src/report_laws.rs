//! Laws of the reports: what two manifests differ in, and what the master script says.

use vstd::prelude::*;

use crate::checksum;
use crate::checksum::{ChunkChecksum, ChunkFindings, TableChecksum};
use crate::collections;
use crate::collections::TextMap;
use crate::config;
use crate::config::{DiffConfig, TablePair};
use crate::config_laws;
use crate::data_diff;
use crate::data_diff::DataDiffRun;
use crate::error::DataDiffError;
use crate::estimation;
use crate::metadata;
use crate::metadata::FkDependency;
use crate::outside;
use crate::single_file;
use crate::single_file::TableSql;
use crate::table_diff;
use crate::table_diff::TableDataDiff;
use crate::text;
use crate::types;
use crate::types::{ChunkStrategy, DiffReport, DiffStats, SchemaComparisonResult, TableAnalysis, TableDiffReport};

verus! {

/// Of the chunks with one index the last stands.
pub proof fn the_last_chunk_with_an_index_stands(chunks: Seq<ChunkChecksum>, chunk: ChunkChecksum, index: usize)
    ensures
        chunk.chunk_index == index ==> checksum::last_chunk(chunks.push(chunk), index) == Some(chunk),
        chunk.chunk_index != index ==> checksum::last_chunk(chunks.push(chunk), index) == checksum::last_chunk(
            chunks,
            index,
        ),
        checksum::last_chunk(Seq::empty(), index) is None,
{
    assert(chunks.push(chunk).drop_last() =~= chunks);
}

/// Of the tables with one name the last stands.
pub proof fn the_last_table_with_a_name_stands(tables: Seq<TableChecksum>, table: TableChecksum, name: Seq<char>)
    ensures
        table.table_name@ == name ==> checksum::last_table(tables.push(table), name) == Some(table),
        table.table_name@ != name ==> checksum::last_table(tables.push(table), name) == checksum::last_table(
            tables,
            name,
        ),
        checksum::last_table(Seq::empty(), name) is None,
{
    assert(tables.push(table).drop_last() =~= tables);
}

/// Of the analyses of one table of the reference the last stands.
pub proof fn the_last_analysis_of_a_table_stands(
    analyses: Seq<TableAnalysis>,
    analysis: TableAnalysis,
    table: Seq<char>,
)
    ensures
        analysis.ref_table@ == table ==> estimation::analysis_of(analyses.push(analysis), table) == Some(analysis),
        analysis.ref_table@ != table ==> estimation::analysis_of(analyses.push(analysis), table)
            == estimation::analysis_of(analyses, table),
        estimation::analysis_of(Seq::empty(), table) is None,
{
    assert(analyses.push(analysis).drop_last() =~= analyses);
}

proof fn lemma_filter_ascends(s: Seq<Seq<char>>, keep: spec_fn(Seq<char>) -> bool)
    requires
        collections::ascending(s),
    ensures
        collections::ascending(s.filter(keep)),
    decreases s.len(),
{
    reveal(Seq::filter);
    if s.len() > 0 {
        let before = s.drop_last();
        lemma_filter_ascends(before, keep);
        let kept = before.filter(keep);
        if keep(s.last()) {
            assert forall|i: int, j: int| 0 <= i < j < s.filter(keep).len() implies text::text_before(
                #[trigger] s.filter(keep)[i],
                #[trigger] s.filter(keep)[j],
            ) by {
                if j == kept.len() {
                    assert(kept.contains(kept[i]));
                    collections::lemma_filter_has(before, keep, kept[i]);
                    let k = choose|k: int| 0 <= k < before.len() && before[k] == kept[i];
                    assert(s[k] == kept[i]);
                } else {
                    assert(text::text_before(kept[i], kept[j]));
                }
            }
        }
    }
}

/// Whether keys are those of the rows of a map that another map lacks, in ascending order.
pub open spec fn are_missing(keys: Seq<Seq<char>>, from: TextMap<String>, to: TextMap<String>) -> bool {
    &&& collections::ascending(keys)
    &&& forall|k: Seq<char>| #[trigger] keys.contains(k) <==> from@.contains_key(k) && !to@.contains_key(k)
}

/// Whether keys are those of the rows that two maps give other hashes, in ascending order.
pub open spec fn have_other_hashes(keys: Seq<Seq<char>>, from: TextMap<String>, to: TextMap<String>) -> bool {
    &&& collections::ascending(keys)
    &&& forall|k: Seq<char>| #[trigger]
        keys.contains(k) <==> from@.contains_key(k) && to@.contains_key(k) && from@[k]@ != to@[k]@
}

/// The rows that a chunk lacks are those whose keys it does not have, and those that were modified
/// have their keys in both with other hashes; both are told in ascending order.
pub proof fn rows_are_told_by_their_keys(
    from: TextMap<String>,
    to: TextMap<String>,
    missing: Seq<Seq<char>>,
    modified: Seq<Seq<char>>,
)
    requires
        from.valid(),
        are_missing(missing, from, to),
        have_other_hashes(modified, from, to),
    ensures
        checksum::missing_rows(from, to) == missing,
        checksum::modified_rows(from, to) == modified,
{
    lemma_filter_ascends(from.order(), checksum::is_missing(from, to));
    lemma_filter_ascends(from.order(), checksum::is_modified(from, to));
    assert forall|k: Seq<char>| #[trigger] missing.contains(k) <==> checksum::missing_rows(from, to).contains(k) by {
        checksum::lemma_missing_rows(from, to, k);
    }
    assert forall|k: Seq<char>| #[trigger] modified.contains(k) <==> checksum::modified_rows(from, to).contains(k) by {
        checksum::lemma_missing_rows(from, to, k);
    }
    collections::lemma_ascending_unique(missing, checksum::missing_rows(from, to));
    collections::lemma_ascending_unique(modified, checksum::modified_rows(from, to));
}

/// Whether the last chunk with an index stands at a place.
pub open spec fn is_last_with(chunks: Seq<ChunkChecksum>, index: usize, i: int) -> bool {
    &&& 0 <= i < chunks.len()
    &&& chunks[i].chunk_index == index
    &&& forall|j: int| i < j < chunks.len() ==> (#[trigger] chunks[j]).chunk_index != index
}

/// Whether no chunk has an index.
pub open spec fn none_with(chunks: Seq<ChunkChecksum>, index: usize) -> bool {
    forall|j: int| 0 <= j < chunks.len() ==> (#[trigger] chunks[j]).chunk_index != index
}

proof fn lemma_last_with(chunks: Seq<ChunkChecksum>, index: usize, i: int)
    ensures
        is_last_with(chunks, index, i) ==> checksum::last_chunk(chunks, index) == Some(chunks[i]),
        none_with(chunks, index) <==> checksum::last_chunk(chunks, index) is None,
    decreases chunks.len(),
{
    if chunks.len() > 0 {
        let before = chunks.drop_last();
        lemma_last_with(before, index, i);
        let last = chunks[chunks.len() - 1];
        if is_last_with(chunks, index, i) && i < before.len() {
            assert(last.chunk_index != index);
            assert forall|j: int| i < j < before.len() implies (#[trigger] before[j]).chunk_index != index by {
                assert(before[j] == chunks[j]);
            }
        }
        if none_with(before, index) && last.chunk_index != index {
            assert forall|j: int| 0 <= j < chunks.len() implies (#[trigger] chunks[j]).chunk_index != index by {
                if j < before.len() {
                    assert(before[j] == chunks[j]);
                }
            }
        }
        if none_with(chunks, index) {
            assert forall|j: int| 0 <= j < before.len() implies (#[trigger] before[j]).chunk_index != index by {
                assert(before[j] == chunks[j]);
            }
            assert(last.chunk_index != index);
        }
    }
}

/// A chunk of the reference is compared with the last chunk of the target that has its index: the
/// rows that the target lacks are missing, those that the reference lacks are extra, and those
/// with other hashes are modified. The chunk differs where there is one such row.
pub proof fn a_chunk_is_compared_row_by_row(
    chunks: Seq<ChunkChecksum>,
    chunk: ChunkChecksum,
    others: Seq<ChunkChecksum>,
    i: int,
    missing: Seq<Seq<char>>,
    extra: Seq<Seq<char>>,
    modified: Seq<Seq<char>>,
)
    requires
        is_last_with(others, chunk.chunk_index, i),
        chunk.row_hashes.valid(),
        others[i].row_hashes.valid(),
        are_missing(missing, chunk.row_hashes, others[i].row_hashes),
        are_missing(extra, others[i].row_hashes, chunk.row_hashes),
        have_other_hashes(modified, chunk.row_hashes, others[i].row_hashes),
    ensures
        ({
            let before = checksum::reference_findings(chunks, others);
            let after = checksum::reference_findings(chunks.push(chunk), others);
            let differs = missing.len() > 0 || extra.len() > 0 || modified.len() > 0;
            &&& after.missing == before.missing + missing
            &&& after.extra == before.extra + extra
            &&& after.modified == before.modified + modified
            &&& differs ==> after.differing == before.differing.push(chunk.chunk_index)
            &&& !differs ==> after.differing == before.differing
        }),
{
    let other = others[i];
    lemma_last_with(others, chunk.chunk_index, i);
    assert(chunks.push(chunk).drop_last() =~= chunks);
    lemma_other_hashes_order(other.row_hashes, chunk.row_hashes);
    rows_are_told_by_their_keys(chunk.row_hashes, other.row_hashes, missing, modified);
    rows_are_told_by_their_keys(
        other.row_hashes,
        chunk.row_hashes,
        extra,
        checksum::modified_rows(other.row_hashes, chunk.row_hashes),
    );
}

proof fn lemma_other_hashes_order(from: TextMap<String>, to: TextMap<String>)
    requires
        from.valid(),
    ensures
        have_other_hashes(checksum::modified_rows(from, to), from, to),
{
    lemma_filter_ascends(from.order(), checksum::is_modified(from, to));
    assert forall|k: Seq<char>| #[trigger]
        checksum::modified_rows(from, to).contains(k) <==> from@.contains_key(k) && to@.contains_key(k) && from@[k]@
            != to@[k]@ by {
        checksum::lemma_missing_rows(from, to, k);
    }
}

/// Of a chunk that the target does not have all rows are missing, and of a chunk that it alone has
/// all rows are extra; both chunks differ, even where they have no rows.
pub proof fn a_chunk_of_one_side_differs_whole(
    chunks: Seq<ChunkChecksum>,
    others: Seq<ChunkChecksum>,
    chunk: ChunkChecksum,
    found: ChunkFindings,
)
    requires
        chunk.row_hashes.valid(),
    ensures
        none_with(others, chunk.chunk_index) ==> {
            let before = checksum::reference_findings(chunks, others);
            let after = checksum::reference_findings(chunks.push(chunk), others);
            &&& after.missing == before.missing + chunk.row_hashes.order()
            &&& after.extra == before.extra
            &&& after.modified == before.modified
            &&& after.differing == before.differing.push(chunk.chunk_index)
        },
        none_with(chunks, chunk.chunk_index) ==> {
            let before = checksum::target_findings(found, chunks, others);
            let after = checksum::target_findings(found, chunks, others.push(chunk));
            &&& after.missing == before.missing
            &&& after.extra == before.extra + chunk.row_hashes.order()
            &&& after.modified == before.modified
            &&& after.differing == before.differing.push(chunk.chunk_index)
        },
        !none_with(chunks, chunk.chunk_index) ==> checksum::target_findings(found, chunks, others.push(chunk))
            == checksum::target_findings(found, chunks, others),
{
    lemma_last_with(others, chunk.chunk_index, 0);
    lemma_last_with(chunks, chunk.chunk_index, 0);
    assert(chunks.push(chunk).drop_last() =~= chunks);
    assert(others.push(chunk).drop_last() =~= others);
    let before = checksum::reference_findings(chunks, others);
    assert(before.extra + Seq::<Seq<char>>::empty() =~= before.extra);
    assert(before.modified + Seq::<Seq<char>>::empty() =~= before.modified);
}

/// Nothing is found without chunks, and what the chunks of the target add comes after what those
/// of the reference were found to differ in.
pub proof fn findings_start_with_the_reference(chunks: Seq<ChunkChecksum>, others: Seq<ChunkChecksum>)
    ensures
        ({
            let found = checksum::reference_findings(Seq::empty(), others);
            &&& found.differing.len() == 0
            &&& found.missing.len() == 0
            &&& found.extra.len() == 0
            &&& found.modified.len() == 0
        }),
        checksum::target_findings(checksum::reference_findings(chunks, others), chunks, Seq::empty())
            == checksum::reference_findings(chunks, others),
        checksum::findings(chunks, others) == checksum::target_findings(
            checksum::reference_findings(chunks, others),
            chunks,
            others,
        ),
{
}

/// Of a table that the target does not have all chunks differ, by their places, and all rows are
/// missing, chunk by chunk; nothing else is said of it.
pub proof fn a_table_that_the_target_lacks_is_missing_whole(table: TableChecksum, targets: Seq<TableChecksum>, i: int)
    requires
        forall|j: int| 0 <= j < targets.len() ==> (#[trigger] targets[j]).table_name@ != table.table_name@,
    ensures
        checksum::table_summary(table, targets) matches Some(s) && {
            &&& s.table_name == table.table_name@
            &&& s.differing_chunks.len() == table.chunks@.len()
            &&& 0 <= i < table.chunks@.len() && i <= usize::MAX ==> s.differing_chunks[i] == i
            &&& s.missing_in_target == checksum::all_rows(table.chunks@)
            &&& s.missing_in_reference.len() == 0
            &&& s.modified.len() == 0
        },
{
    lemma_no_table(targets, table.table_name@);
}

proof fn lemma_no_table(tables: Seq<TableChecksum>, name: Seq<char>)
    requires
        forall|j: int| 0 <= j < tables.len() ==> (#[trigger] tables[j]).table_name@ != name,
    ensures
        checksum::last_table(tables, name) is None,
    decreases tables.len(),
{
    if tables.len() > 0 {
        let before = tables.drop_last();
        assert forall|j: int| 0 <= j < before.len() implies (#[trigger] before[j]).table_name@ != name by {
            assert(before[j] == tables[j]);
        }
        lemma_no_table(before, name);
        assert(tables[tables.len() - 1].table_name@ != name);
    }
}

/// The rows of all chunks are those of the chunks before, then those of the last.
pub proof fn rows_are_told_chunk_by_chunk(chunks: Seq<ChunkChecksum>, chunk: ChunkChecksum)
    ensures
        checksum::all_rows(chunks.push(chunk)) == checksum::all_rows(chunks) + chunk.row_hashes.order(),
        checksum::all_rows(Seq::empty()).len() == 0,
{
    assert(chunks.push(chunk).drop_last() =~= chunks);
}

/// A table that both have is summed up by what its chunks differ in, where they differ in
/// anything: what the target lacks is missing in the target, what the reference lacks is missing
/// in the reference.
pub proof fn a_summary_tells_which_side_lacks_a_row(table: TableChecksum, targets: Seq<TableChecksum>)
    requires
        checksum::last_table(targets, table.table_name@) is Some,
    ensures
        ({
            let target = checksum::last_table(targets, table.table_name@)->0;
            let found = checksum::findings(table.chunks@, target.chunks@);
            match checksum::table_summary(table, targets) {
                Some(s) => {
                    &&& s.table_name == table.table_name@
                    &&& s.differing_chunks == found.differing
                    &&& s.missing_in_target == found.missing
                    &&& s.missing_in_reference == found.extra
                    &&& s.modified == found.modified
                    &&& s.differing_chunks.len() + s.missing_in_target.len() + s.missing_in_reference.len()
                        + s.modified.len() > 0
                },
                None => found.differing.len() + found.missing.len() + found.extra.len() + found.modified.len() == 0,
            }
        }),
{
}

/// Tables are summed up one by one, in their order, and those that do not differ are left out.
pub proof fn tables_are_summed_up_one_by_one(
    tables: Seq<TableChecksum>,
    table: TableChecksum,
    targets: Seq<TableChecksum>,
)
    ensures
        checksum::table_summary(table, targets) matches Some(s) ==> checksum::summaries_of(
            tables.push(table),
            targets,
        ) == checksum::summaries_of(tables, targets).push(s),
        checksum::table_summary(table, targets) is None ==> checksum::summaries_of(tables.push(table), targets)
            == checksum::summaries_of(tables, targets),
        checksum::summaries_of(Seq::empty(), targets).len() == 0,
{
    assert(tables.push(table).drop_last() =~= tables);
}

/// A table that is not found, that has no key or whose columns do not match is warned of by its
/// name; every other error ends the run.
pub proof fn errors_of_one_table_are_warned_of(e: DataDiffError)
    ensures
        data_diff::warning_of(e) is Some <==> e is TableNotFound || e is NoPrimaryKey || e is ColumnMismatch,
        e matches DataDiffError::TableNotFound(t) ==> data_diff::warning_of(e)->0 == "Table not found: "@ + t@,
        e matches DataDiffError::NoPrimaryKey(t) ==> data_diff::warning_of(e)->0 == "No primary key for table: "@
            + t@,
        e matches DataDiffError::ColumnMismatch { ref_table, target_table } ==> data_diff::warning_of(e)->0
            == "Column mismatch between "@ + ref_table@ + " and "@ + target_table@,
{
}

/// A script is run by its file where there is one, and else a remark says that there is nothing
/// to do.
pub proof fn scripts_are_run_by_their_files(file: Option<String>, kind: Seq<char>, table: Seq<char>)
    ensures
        file matches Some(f) ==> data_diff::script_line(file, kind, table) == "\\i '"@ + f@ + "'"@,
        file is None ==> data_diff::script_line(file, kind, table) == "-- No "@ + kind + "s for "@ + table
            + " necessary"@,
{
}

proof fn lemma_no_script_line_commits(file: Option<String>, kind: Seq<char>, table: Seq<char>)
    ensures
        data_diff::script_line(file, kind, table) != "COMMIT;"@,
{
    reveal_strlit("COMMIT;");
    reveal_strlit("\\i '");
    reveal_strlit("-- No ");
    let line = data_diff::script_line(file, kind, table);
    assert(line.len() > 0 && line[0] != 'C');
}

proof fn lemma_change_lines_do_not_commit(tables: Seq<TableDiffReport>, places: Seq<usize>)
    ensures
        data_diff::change_lines(tables, places).len() == 2 * places.len(),
        places.len() > 0 ==> data_diff::change_lines(tables, places).last() != "COMMIT;"@,
    decreases places.len(),
{
    if places.len() > 0 {
        lemma_change_lines_do_not_commit(tables, places.drop_last());
        let t = tables[places.last() as int];
        lemma_no_script_line_commits(t.update_file, "UPDATE"@, t.table_name@);
    }
}

/// Whether some table has a script of inserts or updates.
pub open spec fn some_table_changes(tables: Seq<TableDiffReport>) -> bool {
    exists|i: int|
        0 <= i < tables.len() && ((#[trigger] tables[i]).insert_file is Some || tables[i].update_file is Some)
}

/// Whether some table has a script of deletes.
pub open spec fn some_table_deletes(tables: Seq<TableDiffReport>) -> bool {
    exists|i: int| 0 <= i < tables.len() && (#[trigger] tables[i]).delete_file is Some
}

/// Without deletes the master script ends with a commit exactly where some table has inserts or
/// updates. With deletes it goes on, and ends with a commit exactly where some table has deletes.
pub proof fn a_commit_ends_what_was_changed(report: DiffReport, inserts: Seq<usize>, deletes: Seq<usize>)
    ensures
        ({
            let changes = data_diff::master_lines(report, inserts, deletes, false);
            let all = data_diff::master_lines(report, inserts, deletes, true);
            &&& changes.len() > 0
            &&& changes.last() == "COMMIT;"@ <==> some_table_changes(report.tables@)
            &&& all.len() > changes.len()
            &&& all.take(changes.len() as int) == changes
            &&& all.last() == "COMMIT;"@ <==> some_table_deletes(report.tables@)
        }),
{
    reveal_strlit("COMMIT;");
    reveal_strlit("-- ----------------------");
    reveal_strlit("-- ---------------");
    let tables = report.tables@;
    let changes = data_diff::master_lines(report, inserts, deletes, false);
    let all = data_diff::master_lines(report, inserts, deletes, true);
    let tail = data_diff::delete_part(tables, deletes, true);
    lemma_change_lines_do_not_commit(tables, inserts);
    assert(all =~= changes + tail);
    assert(all.take(changes.len() as int) =~= changes);
    assert(all.last() == tail.last());
    if !data_diff::has_deletes(tables) {
        if deletes.len() > 0 {
            let t = tables[deletes.last() as int];
            lemma_no_script_line_commits(t.delete_file, "DELETE"@, t.table_name@);
            assert(tail.last() == data_diff::script_line(t.delete_file, "DELETE"@, t.table_name@));
        } else {
            assert(tail.last() == "-- ---------------"@);
        }
    }
    if !data_diff::has_changes(tables) {
        if inserts.len() == 0 {
            assert(changes.last() == "-- ----------------------"@);
        } else {
            assert(changes.last() == data_diff::change_lines(tables, inserts).last());
        }
    }
}

spec fn opening() -> Seq<Seq<char>> {
    seq![
        "-- ----------------------------------------------------------------"@,
        "-- Data migration script"@,
        "-- ----------------------------------------------------------------"@,
        ""@,
        "-- Tables included:"@,
    ]
}

spec fn opening_of_changes() -> Seq<Seq<char>> {
    seq!["-- ----------------------"@, "-- UPDATE/INSERT scripts"@, "-- ----------------------"@]
}

spec fn table_names(report: DiffReport) -> Seq<Seq<char>> {
    report.tables@.map_values(|t: TableDiffReport| data_diff::comment(t.table_name@))
}

/// The master script names every table and tells every warning.
pub proof fn the_master_script_tells_tables_and_warnings(
    report: DiffReport,
    inserts: Seq<usize>,
    deletes: Seq<usize>,
    with_deletes: bool,
    i: int,
)
    ensures
        0 <= i < report.tables@.len() ==> data_diff::master_lines(report, inserts, deletes, with_deletes).contains(
            "-- "@ + report.tables@[i].table_name@,
        ),
        0 <= i < report.warnings@.len() ==> data_diff::master_lines(report, inserts, deletes, with_deletes).contains(
            "-- "@ + report.warnings@[i]@,
        ),
{
    let lines = data_diff::master_lines(report, inserts, deletes, with_deletes);
    let names = table_names(report);
    let warned = data_diff::warning_lines(report.warnings@);
    let changes = data_diff::change_lines(report.tables@, inserts);
    let end = data_diff::commit_lines(data_diff::has_changes(report.tables@));
    let tail = data_diff::delete_part(report.tables@, deletes, with_deletes);
    assert(lines == opening() + names + seq![""@] + warned + opening_of_changes() + changes + end + tail);
    if 0 <= i < report.tables@.len() {
        assert(lines[opening().len() + i] == names[i]);
        assert(names[i] == "-- "@ + report.tables@[i].table_name@);
    }
    if 0 <= i < report.warnings@.len() {
        assert(warned[i + 1] == "-- "@ + report.warnings@[i]@);
        assert(lines[opening().len() + names.len() + 1 + i + 1] == warned[i + 1]);
    }
}

/// The master script runs the inserts of each table right before its updates.
pub proof fn the_master_script_runs_changes_table_by_table(
    report: DiffReport,
    inserts: Seq<usize>,
    deletes: Seq<usize>,
    with_deletes: bool,
    i: int,
)
    requires
        0 <= i < inserts.len(),
    ensures
        ({
            let lines = data_diff::master_lines(report, inserts, deletes, with_deletes);
            let t = report.tables@[inserts[i] as int];
            exists|l: int|
                0 <= l < lines.len() - 1 && #[trigger] lines[l] == data_diff::script_line(
                    t.insert_file,
                    "INSERT"@,
                    t.table_name@,
                ) && lines[l + 1] == data_diff::script_line(t.update_file, "UPDATE"@, t.table_name@)
        }),
{
    let lines = data_diff::master_lines(report, inserts, deletes, with_deletes);
    let names = table_names(report);
    let warned = data_diff::warning_lines(report.warnings@);
    let changes = data_diff::change_lines(report.tables@, inserts);
    let end = data_diff::commit_lines(data_diff::has_changes(report.tables@));
    let tail = data_diff::delete_part(report.tables@, deletes, with_deletes);
    let before = opening() + names + seq![""@] + warned + opening_of_changes();
    assert(lines == before + changes + end + tail);
    lemma_change_lines_at(report.tables@, inserts, i);
    let l = before.len() + 2 * i;
    assert(lines[l] == changes[2 * i]);
    assert(lines[l + 1] == changes[2 * i + 1]);
}

/// Where deletes are asked for, the master script runs those of each table.
pub proof fn the_master_script_runs_deletes_where_asked(
    report: DiffReport,
    inserts: Seq<usize>,
    deletes: Seq<usize>,
    i: int,
)
    requires
        0 <= i < deletes.len(),
    ensures
        data_diff::master_lines(report, inserts, deletes, true).contains(
            data_diff::script_line(
                report.tables@[deletes[i] as int].delete_file,
                "DELETE"@,
                report.tables@[deletes[i] as int].table_name@,
            ),
        ),
{
    let lines = data_diff::master_lines(report, inserts, deletes, true);
    let names = table_names(report);
    let warned = data_diff::warning_lines(report.warnings@);
    let changes = data_diff::change_lines(report.tables@, inserts);
    let end = data_diff::commit_lines(data_diff::has_changes(report.tables@));
    let tail = data_diff::delete_part(report.tables@, deletes, true);
    let before = opening() + names + seq![""@] + warned + opening_of_changes() + changes + end;
    assert(lines == before + tail);
    let listed = data_diff::delete_lines(report.tables@, deletes);
    assert(tail[4 + i] == listed[i]);
    assert(lines[before.len() + 4 + i] == listed[i]);
}

proof fn lemma_change_lines_at(tables: Seq<TableDiffReport>, places: Seq<usize>, k: int)
    requires
        0 <= k < places.len(),
    ensures
        ({
            let t = tables[places[k] as int];
            let lines = data_diff::change_lines(tables, places);
            &&& lines.len() == 2 * places.len()
            &&& lines[2 * k] == data_diff::script_line(t.insert_file, "INSERT"@, t.table_name@)
            &&& lines[2 * k + 1] == data_diff::script_line(t.update_file, "UPDATE"@, t.table_name@)
        }),
    decreases places.len(),
{
    let before = places.drop_last();
    lemma_change_lines_do_not_commit(tables, before);
    if k < before.len() {
        lemma_change_lines_at(tables, before, k);
    }
}

/// A script has a file exactly where it has statements and scripts are written, and the file has
/// the name of the table and of what the script does.
pub proof fn scripts_without_statements_have_no_file(
    t: TableDiffReport,
    config: DiffConfig,
    table: Seq<char>,
    stats: DiffStats,
    deletes: u64,
)
    requires
        data_diff::reports(t, config, table, stats, deletes),
    ensures
        ({
            let written = config.to_stream || !config.single_file;
            &&& t.table_name@ == table
            &&& t.inserts == stats.inserts && t.updates == stats.updates && t.deletes == deletes
            &&& t.insert_file is Some <==> written && stats.inserts > 0
            &&& t.update_file is Some <==> written && stats.updates > 0
            &&& t.delete_file is Some <==> written && deletes > 0
            &&& t.insert_file matches Some(f) ==> f@ == table + "_$insert.sql"@
            &&& t.update_file matches Some(f) ==> f@ == table + "_$update.sql"@
            &&& t.delete_file matches Some(f) ==> f@ == table + "_$delete.sql"@
        }),
{
}

/// A table is compared as it was configured: under its two names, in chunks of at least one row,
/// with the columns to ignore left out of the statements only where that is asked for.
pub proof fn a_table_is_compared_as_configured(
    diff: TableDataDiff,
    config: DiffConfig,
    pair: TablePair,
    analyses: Seq<TableAnalysis>,
    name: Seq<char>,
)
    requires
        data_diff::is_configured(diff, config, pair, analyses),
    ensures
        diff.ref_table@ == pair.reference@,
        diff.target_table@ == pair.target@,
        diff.chunk_size >= 1,
        config.chunk_size >= 1 ==> diff.chunk_size == config.chunk_size,
        config.columns_to_ignore@.contains(name) ==> diff.columns_to_ignore@.contains(
            outside::lowercase_text(name),
        ),
        diff.columns_to_ignore@.contains(name) ==> exists|other: Seq<char>| #[trigger]
            config.columns_to_ignore@.contains(other) && outside::lowercase_text(other) == name,
        config.exclude_ignored_columns ==> diff.exclude_columns@ == diff.columns_to_ignore@,
        !config.exclude_ignored_columns ==> !diff.exclude_columns@.contains(name),
        diff.exclude_real_pk == config.exclude_real_pk,
        diff.include_identity_columns == config.include_identity_columns,
        diff.target_schema == config.target_schema,
        !diff.cancelled,
{
}

/// The tables of a schema are paired with those of the same name in the schema of the target,
/// which is the same schema where no other is named.
pub proof fn tables_are_paired_by_their_names(reference: Seq<char>, target: Option<String>, table: Seq<char>)
    ensures
        data_diff::discovered_names(reference, target, table).0 == reference + "."@ + table,
        target matches Some(s) ==> data_diff::discovered_names(reference, target, table).1 == s@ + "."@ + table,
        target is None ==> data_diff::discovered_names(reference, target, table).1 == reference + "."@ + table,
{
}

/// Tables are warned of exactly where they do not match, each once and in ascending order.
pub proof fn tables_are_warned_of_where_they_do_not_match(
    results: TextMap<SchemaComparisonResult>,
    names: Seq<Seq<char>>,
    i: int,
)
    requires
        results.valid(),
        collections::ascending(names),
        forall|n: Seq<char>| #[trigger] names.contains(n) <==> results@.contains_key(n) && results@[n] is Mismatch,
    ensures
        data_diff::mismatch_warnings(results).len() == names.len(),
        0 <= i < names.len() ==> data_diff::mismatch_warnings(results)[i] == "Schema mismatch for '"@ + names[i]
            + "': "@ + results@[names[i]]->message@ + ". Add to exclusion list or define a timestamp column."@,
{
    let keep = data_diff::is_mismatch(results@);
    lemma_filter_ascends(results.order(), keep);
    assert forall|n: Seq<char>| #[trigger] names.contains(n) <==> results.order().filter(keep).contains(n) by {
        collections::lemma_filter_has(results.order(), keep, n);
    }
    collections::lemma_ascending_unique(names, results.order().filter(keep));
}

/// Pairs are compared in their order, but for those whose table of the reference does not match.
pub proof fn pairs_that_do_not_match_are_left_out(
    results: Map<Seq<char>, SchemaComparisonResult>,
    pairs: Seq<TablePair>,
    pair: TablePair,
)
    ensures
        ({
            let table = config::table_part(pair.reference@);
            let differs = results.contains_key(table) && results[table] is Mismatch;
            let kept = pairs.filter(data_diff::is_active(results));
            &&& differs ==> pairs.push(pair).filter(data_diff::is_active(results)) == kept
            &&& !differs ==> pairs.push(pair).filter(data_diff::is_active(results)) == kept.push(pair)
        }),
{
    reveal(Seq::filter);
    assert(pairs.push(pair).drop_last() =~= pairs);
}

/// A single file holds the inserts and updates of each table, in the order for changes, and after
/// all of them the deletes of each, in the order for deletes.
pub proof fn a_single_file_deletes_after_all_changes(
    tables: Seq<TableSql>,
    changes: Seq<usize>,
    deletes: Seq<usize>,
    p: usize,
)
    ensures
        ({
            let t = tables[p as int];
            let none = Seq::<usize>::empty();
            &&& single_file::single_file(tables, none, none).len() == 0
            &&& single_file::single_file(tables, changes.push(p), none) == single_file::single_file(
                tables,
                changes,
                none,
            ) + t.inserts@ + t.updates@
            &&& single_file::single_file(tables, changes, deletes.push(p)) == single_file::single_file(
                tables,
                changes,
                deletes,
            ) + t.deletes@
        }),
{
    assert(changes.push(p).drop_last() =~= changes);
    assert(deletes.push(p).drop_last() =~= deletes);
    let t = tables[p as int];
    assert(single_file::single_file(tables, changes, deletes.push(p)) =~= single_file::single_file(
        tables,
        changes,
        deletes,
    ) + t.deletes@);
}

/// A run finds its tables, compares the schemas where both databases and both schemas are named,
/// then compares the tables one by one, and orders the scripts only where that is asked for.
pub proof fn a_run_goes_on_as_configured(config: DiffConfig, done: nat, total: nat)
    requires
        done <= total,
    ensures
        data_diff::phase_with_tables(config) is Schemas <==> config.reference_db_name is Some
            && config.target_db_name is Some && config.reference_schema is Some && config.target_schema is Some,
        data_diff::phase_with_tables(config) is Schemas || data_diff::phase_with_tables(config) is Analysis,
        data_diff::phase_after_tables(config, done, total) is Diff <==> done < total,
        data_diff::phase_after_tables(config, total, total) is Order <==> config.check_dependencies,
        data_diff::phase_after_tables(config, total, total) is Done <==> !config.check_dependencies,
{
}

/// Where no foreign keys go round in a circle, the scripts of a table that a foreign key refers to
/// are run before those of the table that has it, and its deletes after those of that table.
/// `level` shows that there is no circle: it is lower for the table that is referred to.
pub proof fn scripts_follow_the_foreign_keys(
    run: DataDiffRun,
    deps: Seq<FkDependency>,
    level: spec_fn(Seq<char>) -> int,
    d: int,
    parent: int,
    child: int,
    places: (int, int),
    delete_places: (int, int),
)
    requires
        data_diff::ordered_by(run, deps),
        forall|e: int|
            0 <= e < deps.len() ==> level(outside::lowercase_text((#[trigger] deps[e]).references_table@)) < level(
                outside::lowercase_text(deps[e].table@),
            ),
        0 <= d < deps.len(),
        0 <= parent < run.report.tables@.len(),
        0 <= child < run.report.tables@.len(),
        forall|a: int, b: int|
            #![trigger run.report.tables@[a], run.report.tables@[b]]
            0 <= a < run.report.tables@.len() && 0 <= b < run.report.tables@.len() && outside::lowercase_text(
                run.report.tables@[a].table_name@,
            ) == outside::lowercase_text(run.report.tables@[b].table_name@) ==> run.report.tables@[a].table_name@
                == run.report.tables@[b].table_name@,
        outside::lowercase_text(run.report.tables@[parent].table_name@) == outside::lowercase_text(
            deps[d].references_table@,
        ),
        outside::lowercase_text(run.report.tables@[child].table_name@) == outside::lowercase_text(deps[d].table@),
        0 <= places.0 < run.insert_places@.len(),
        0 <= places.1 < run.insert_places@.len(),
        run.insert_places@[places.0] == parent,
        run.insert_places@[places.1] == child,
        0 <= delete_places.0 < run.delete_places@.len(),
        0 <= delete_places.1 < run.delete_places@.len(),
        run.delete_places@[delete_places.0] == parent,
        run.delete_places@[delete_places.1] == child,
    ensures
        places.0 < places.1,
        delete_places.1 < delete_places.0,
{
    let tables = run.report.tables@;
    let names = choose|names: Seq<String>| #[trigger] data_diff::sorted_by(run, names, deps);
    let order = metadata::insert_order(names, deps);
    metadata::every_table_is_sorted(names, deps);
    let i = lemma_place_in_order(tables, names, deps, parent);
    let j = lemma_place_in_order(tables, names, deps, child);
    metadata::a_foreign_key_puts_its_table_later(names, deps, level, d, i, j);
    assert(order.no_duplicates()) by {
        assert forall|a: int, b: int| 0 <= a < b < order.len() implies order[a] != order[b] by {
            assert(outside::lowercase_text(order[a]) != outside::lowercase_text(order[b]));
        }
    }
    let back = order.reverse();
    assert(back.no_duplicates()) by {
        assert forall|a: int, b: int| 0 <= a < b < back.len() implies back[a] != back[b] by {
            assert(order[back.len() - 1 - b] != order[back.len() - 1 - a]);
        }
    }
    assert(data_diff::as_numbers(run.insert_places@)[places.0] == parent);
    assert(data_diff::as_numbers(run.insert_places@)[places.1] == child);
    assert(data_diff::as_numbers(run.delete_places@)[delete_places.0] == parent);
    assert(data_diff::as_numbers(run.delete_places@)[delete_places.1] == child);
    data_diff::ordering_follows_the_names(tables, order, i, j, places.0, places.1);
    let n = order.len();
    data_diff::ordering_follows_the_names(
        tables,
        back,
        n - 1 - j,
        n - 1 - i,
        delete_places.1,
        delete_places.0,
    );
}

proof fn lemma_place_in_order(
    tables: Seq<TableDiffReport>,
    names: Seq<String>,
    deps: Seq<FkDependency>,
    i: int,
) -> (k: int)
    requires
        text::texts(names) == data_diff::report_names(tables),
        0 <= i < tables.len(),
        forall|a: int, b: int|
            #![trigger tables[a], tables[b]]
            0 <= a < tables.len() && 0 <= b < tables.len() && outside::lowercase_text(tables[a].table_name@)
                == outside::lowercase_text(tables[b].table_name@) ==> tables[a].table_name@ == tables[b].table_name@,
    ensures
        0 <= k < metadata::insert_order(names, deps).len(),
        metadata::insert_order(names, deps)[k] == tables[i].table_name@,
{
    let order = metadata::insert_order(names, deps);
    metadata::every_table_is_sorted(names, deps);
    assert(text::texts(names).len() == tables.len());
    assert(text::texts(names)[i] == tables[i].table_name@);
    assert(names[i]@ == tables[i].table_name@);
    let k = choose|k: int|
        0 <= k < order.len() && outside::lowercase_text(#[trigger] order[k]) == outside::lowercase_text(names[i]@);
    assert(text::texts(names).contains(order[k]));
    let a = choose|a: int| 0 <= a < text::texts(names).len() && text::texts(names)[a] == order[k];
    assert(data_diff::report_names(tables)[a] == tables[a].table_name@);
    assert(tables[a].table_name@ == tables[i].table_name@);
    k
}

proof fn lemma_named_place(tables: Seq<TableDiffReport>, names: Seq<Seq<char>>, p: int, q: int)
    requires
        names.no_duplicates(),
        0 <= p < data_diff::named_places(tables, names).len(),
        0 <= q < data_diff::named_places(tables, names).len(),
    ensures
        names.contains(tables[data_diff::named_places(tables, names)[p]].table_name@),
        p < q && tables[data_diff::named_places(tables, names)[p]].table_name@
            == tables[data_diff::named_places(tables, names)[q]].table_name@ ==> data_diff::named_places(tables, names)[p]
            < data_diff::named_places(tables, names)[q],
    decreases names.len(),
{
    let front = names.drop_last();
    let before = data_diff::named_places(tables, front);
    let keep = data_diff::has_name(tables, names.last());
    let last = collections::picked(tables.len(), keep);
    collections::lemma_picked(tables.len(), keep);
    assert(data_diff::named_places(tables, names) == before + last);
    if p < before.len() {
        lemma_named_place(tables, front, p, p);
        let k = front.index_of(tables[before[p]].table_name@);
        assert(names[k] == tables[before[p]].table_name@);
        if q < before.len() {
            lemma_named_place(tables, front, p, q);
        } else {
            assert(last.contains(last[q - before.len()]));
            assert(tables[last[q - before.len()]].table_name@ == names.last());
        }
    } else {
        assert(last.contains(last[p - before.len()]));
        assert(tables[last[p - before.len()]].table_name@ == names.last());
        assert(names.contains(names.last()));
    }
}

/// Tables with one name keep their order, and tables whose names are not in the order come last,
/// in theirs.
pub proof fn tables_keep_their_order_where_the_names_say_nothing(
    tables: Seq<TableDiffReport>,
    names: Seq<Seq<char>>,
    p: int,
    q: int,
)
    requires
        names.no_duplicates(),
        0 <= p < q < data_diff::ordered_places(tables, names).len(),
    ensures
        ({
            let i = data_diff::ordered_places(tables, names)[p];
            let j = data_diff::ordered_places(tables, names)[q];
            &&& tables[i].table_name@ == tables[j].table_name@ ==> i < j
            &&& !names.contains(tables[i].table_name@) ==> i < j && !names.contains(tables[j].table_name@)
        }),
{
    let named = data_diff::named_places(tables, names);
    let keep = data_diff::has_other_name(tables, names);
    let rest = collections::picked(tables.len(), keep);
    collections::lemma_picked(tables.len(), keep);
    if p < named.len() {
        lemma_named_place(tables, names, p, p);
        if q < named.len() {
            lemma_named_place(tables, names, p, q);
        } else {
            assert(rest.contains(rest[q - named.len()]));
        }
    } else {
        assert(rest.contains(rest[q - named.len()]));
    }
}

/// A table gets checksums exactly where one of the analyses is of it.
pub proof fn analyzed_tables_get_checksums(tables: Seq<String>, analyses: Seq<TableAnalysis>, i: int)
    ensures
        checksum::is_analyzed(tables, analyses)(i) <==> exists|j: int|
            0 <= j < analyses.len() && (#[trigger] analyses[j]).ref_table@ == tables[i]@,
    decreases analyses.len(),
{
    if analyses.len() > 0 {
        let before = analyses.drop_last();
        analyzed_tables_get_checksums(tables, before, i);
        if checksum::is_analyzed(tables, before)(i) {
            let j = choose|j: int| 0 <= j < before.len() && (#[trigger] before[j]).ref_table@ == tables[i]@;
            assert(analyses[j] == before[j]);
        }
        assert(analyses[analyses.len() - 1] == analyses.last());
        assert forall|j: int| 0 <= j < before.len() implies #[trigger] analyses[j] == before[j] by {}
    }
}

/// Only a table that is split by time has chunks bounded by a column, and it is the column that it
/// is split by.
pub proof fn tables_split_by_time_have_bounds(strategy: ChunkStrategy)
    ensures
        checksum::range_column(strategy) is Some <==> strategy is Md5TimestampChunk,
        strategy matches ChunkStrategy::Md5TimestampChunk { timestamp_column, .. } ==> checksum::range_column(strategy)
            == Some(timestamp_column@) && table_diff::chunk_column(strategy) == timestamp_column@,
        strategy is Md5TimestampChunk <==> (types::strategy_text(strategy) != "IdChunkSmall"@
            && types::strategy_text(strategy) != "IdChunkMedium"@ && types::strategy_text(strategy)
            != "IdChunkLargeExcluded"@),
        strategy is IdChunkSmall <==> types::strategy_text(strategy) == "IdChunkSmall"@,
        strategy is IdChunkMedium <==> types::strategy_text(strategy) == "IdChunkMedium"@,
        strategy is IdChunkLargeExcluded <==> types::strategy_text(strategy) == "IdChunkLargeExcluded"@,
        strategy matches ChunkStrategy::Md5TimestampChunk { timestamp_column, chunk_days, .. } ==> types::strategy_text(
            strategy,
        ) == "Md5TimestampChunk(col="@ + timestamp_column@ + ", chunk_days="@ + chunk_days.one_decimal@ + ")"@,
{
    reveal_strlit("IdChunkSmall");
    reveal_strlit("IdChunkMedium");
    reveal_strlit("IdChunkLargeExcluded");
    reveal_strlit("Md5TimestampChunk(col=");
    assert("IdChunkSmall"@[7] == 'S' && "IdChunkMedium"@[7] == 'M' && "IdChunkLargeExcluded"@[7] == 'L');
    if let ChunkStrategy::Md5TimestampChunk { .. } = strategy {
        assert(types::strategy_text(strategy)[0] == 'M');
    }
}

/// Dependencies are read of the schemas that some table of the target has, and of no schema for a
/// table without one.
pub proof fn dependencies_are_of_the_schemas_of_the_target(
    pairs: Seq<TablePair>,
    schema: Seq<char>,
    table: Seq<char>,
    i: int,
)
    requires
        0 <= i < pairs.len(),
        !schema.contains('.'),
    ensures
        pairs[i].target@ == schema + seq!['.'] + table ==> data_diff::has_target_in(pairs, Some(schema)),
        pairs[i].target@ == schema ==> data_diff::has_target_in(pairs, None),
        pairs.len() == 1 && pairs[i].target@ == schema + seq!['.'] + table ==> !data_diff::has_target_in(pairs, None),
        pairs.len() == 1 && pairs[i].target@ == schema ==> !data_diff::has_target_in(pairs, Some(schema)),
{
    config_laws::a_name_is_divided_at_the_first_dot(schema, table);
}

/// A table is reported after those before it, which stay as they are, and nothing is warned of.
pub proof fn reports_are_added_one_by_one(before: DataDiffRun, after: DataDiffRun, i: int)
    requires
        before.valid(),
        before.phase is Delete,
        data_diff::moved_on(before, after),
    ensures
        after.report.tables@.len() == before.report.tables@.len() + 1,
        0 <= i < before.report.tables@.len() ==> after.report.tables@[i] == before.report.tables@[i],
        after.report.warnings == before.report.warnings,
        after.report.tables@.last().inserts == before.current.inserts,
        after.report.tables@.last().updates == before.current.updates,
        after.report.tables@.last().table_name == before.current.table_name,
        after.phase is Diff <==> before.report.tables@.len() + 1 < before.pairs@.len(),
        after.phase is Order <==> before.report.tables@.len() + 1 == before.pairs@.len()
            && before.config.check_dependencies,
{
    if 0 <= i < before.report.tables@.len() {
        assert(after.report.tables@.drop_last()[i] == after.report.tables@[i]);
    }
}

/// What is reported of a stream names no files and keeps the name and the counts.
pub proof fn a_stream_has_no_files(t: TableDiffReport)
    ensures
        ({
            let r = data_diff::without_files(t);
            &&& r.table_name == t.table_name
            &&& r.inserts == t.inserts && r.updates == t.updates && r.deletes == t.deletes
            &&& r.insert_file is None && r.update_file is None && r.delete_file is None
        }),
{
}

} // verus!
