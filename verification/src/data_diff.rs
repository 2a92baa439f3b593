//! The comparison of two databases, table by table.

use vstd::prelude::*;

use crate::collections;
use crate::collections::TextMap;
use crate::config;
use crate::config::{DiffConfig, TablePair};
use crate::delete_sync::TableDeleteSync;
use crate::error::DataDiffError;
use crate::estimation;
use crate::metadata;
use crate::metadata::FkDependency;
use crate::schema_compare;
use crate::single_file;
use crate::single_file::TableSql;
use crate::table_diff;
use crate::table_diff::TableDataDiff;
use crate::text;
use crate::types::{DiffReport, DiffStats, SchemaComparisonResult, TableAnalysis, TableDiffReport};

verus! {

/// The warning that an error is turned into, where the comparison can go on without the table.
pub open spec fn warning_of(e: DataDiffError) -> Option<Seq<char>> {
    match e {
        DataDiffError::TableNotFound(t) => Some("Table not found: "@ + t@),
        DataDiffError::NoPrimaryKey(t) => Some("No primary key for table: "@ + t@),
        DataDiffError::ColumnMismatch { ref_table, target_table } => Some(
            "Column mismatch between "@ + ref_table@ + " and "@ + target_table@,
        ),
        _ => None,
    }
}

/// Convert recoverable diff errors into warning strings, returning None for fatal errors.
pub fn diff_error_to_warning(e: &DataDiffError) -> (r: Option<String>)
    ensures
        crate::chunk_strategy::owned_text_of(r) == warning_of(*e),
{
    match e {
        DataDiffError::TableNotFound(t) => Some("Table not found: ".to_owned().concat(t.as_str())),
        DataDiffError::NoPrimaryKey(t) => Some(
            "No primary key for table: ".to_owned().concat(t.as_str()),
        ),
        DataDiffError::ColumnMismatch { ref_table, target_table } => Some(
            "Column mismatch between ".to_owned().concat(ref_table.as_str()).concat(" and ").concat(
                target_table.as_str(),
            ),
        ),
        _ => None,
    }
}

/// A line that runs a script.
pub open spec fn run_line(file: Seq<char>) -> Seq<char> {
    "\\i '"@ + file + "'"@
}

/// A line that says that there is nothing to run.
pub open spec fn nothing_line(kind: Seq<char>, table: Seq<char>) -> Seq<char> {
    "-- No "@ + kind + "s for "@ + table + " necessary"@
}

/// The line for a script that may be there.
pub open spec fn script_line(file: Option<String>, kind: Seq<char>, table: Seq<char>) -> Seq<char> {
    match file {
        Some(f) => run_line(f@),
        None => nothing_line(kind, table),
    }
}

/// The line for a script that may be there.
fn write_script_line(file: &Option<String>, kind: &str, table: &str) -> (r: String)
    ensures
        r@ == script_line(*file, kind@, table@),
{
    match file {
        Some(f) => {
            let mut out = "\\i '".to_owned();
            out.append(f.as_str());
            out.append("'");
            out
        },
        None => {
            let mut out = "-- No ".to_owned();
            out.append(kind);
            out.append("s for ");
            out.append(table);
            out.append(" necessary");
            out
        },
    }
}

/// A comment line.
pub open spec fn comment(s: Seq<char>) -> Seq<char> {
    "-- "@ + s
}

/// A comment line.
fn write_comment(s: &str) -> (r: String)
    ensures
        r@ == comment(s@),
{
    let mut out = "-- ".to_owned();
    out.append(s);
    out
}

/// The lines that run the INSERT and UPDATE scripts of tables at the given places.
pub open spec fn change_lines(tables: Seq<TableDiffReport>, places: Seq<usize>) -> Seq<Seq<char>>
    decreases places.len(),
{
    if places.len() == 0 {
        Seq::empty()
    } else {
        let t = tables[places.last() as int];
        change_lines(tables, places.drop_last()).push(
            script_line(t.insert_file, "INSERT"@, t.table_name@),
        ).push(script_line(t.update_file, "UPDATE"@, t.table_name@))
    }
}

/// The lines that run the DELETE scripts of tables at the given places.
pub open spec fn delete_lines(tables: Seq<TableDiffReport>, places: Seq<usize>) -> Seq<Seq<char>> {
    places.map_values(
        |p: usize| script_line(tables[p as int].delete_file, "DELETE"@, tables[p as int].table_name@),
    )
}

/// Whether there is an INSERT or UPDATE script.
pub open spec fn has_changes(tables: Seq<TableDiffReport>) -> bool {
    exists|i: int|
        0 <= i < tables.len() && ((#[trigger] tables[i]).insert_file is Some || tables[i].update_file is Some)
}

/// Whether there is a DELETE script.
pub open spec fn has_deletes(tables: Seq<TableDiffReport>) -> bool {
    exists|i: int| 0 <= i < tables.len() && (#[trigger] tables[i]).delete_file is Some
}

/// The lines that end what changes data, where there is any.
pub open spec fn commit_lines(any: bool) -> Seq<Seq<char>> {
    if any {
        seq![""@, "COMMIT;"@]
    } else {
        Seq::empty()
    }
}

/// The comment lines for the warnings of a report.
pub open spec fn warning_lines(warnings: Seq<String>) -> Seq<Seq<char>> {
    if warnings.len() == 0 {
        Seq::empty()
    } else {
        seq!["-- Warnings:"@] + warnings.map_values(|w: String| comment(w@)) + seq![""@]
    }
}

/// The lines of the part of the master script that deletes.
pub open spec fn delete_part(tables: Seq<TableDiffReport>, places: Seq<usize>, with_deletes: bool) -> Seq<Seq<char>> {
    if with_deletes {
        seq![""@, "-- ---------------"@, "-- DELETE scripts"@, "-- ---------------"@] + delete_lines(
            tables,
            places,
        ) + commit_lines(has_deletes(tables))
    } else {
        Seq::empty()
    }
}

/// The lines of the master script. The scripts of the tables come in the given orders.
pub open spec fn master_lines(
    report: DiffReport,
    insert_places: Seq<usize>,
    delete_places: Seq<usize>,
    with_deletes: bool,
) -> Seq<Seq<char>> {
    seq![
        "-- ----------------------------------------------------------------"@,
        "-- Data migration script"@,
        "-- ----------------------------------------------------------------"@,
        ""@,
        "-- Tables included:"@,
    ] + report.tables@.map_values(|t: TableDiffReport| comment(t.table_name@)) + seq![""@]
        + warning_lines(report.warnings@) + seq![
        "-- ----------------------"@,
        "-- UPDATE/INSERT scripts"@,
        "-- ----------------------"@,
    ] + change_lines(report.tables@, insert_places) + commit_lines(has_changes(report.tables@)) + delete_part(
        report.tables@,
        delete_places,
        with_deletes,
    )
}

/// Adds a line, and says what the lines are then.
fn add_line(all: &mut Vec<String>, line: String)
    ensures
        text::texts(final(all)@) == text::texts(old(all)@).push(line@),
{
    let ghost before = all@;
    all.push(line);
    assert(text::texts(all@) =~= text::texts(before).push(line@));
}

/// Each line followed by a newline.
fn write_lines(all: &[String]) -> (r: String)
    ensures
        r@ == table_diff::lines(text::texts(all@), "\n"@),
{
    let mut out = String::new();
    assert(text::texts(all@).take(0) =~= Seq::<Seq<char>>::empty());
    for i in 0..all.len()
        invariant
            out@ == table_diff::lines(text::texts(all@).take(i as int), "\n"@),
    {
        let mut line = all[i].clone();
        line.append("\n");
        out.append(line.as_str());
        assert(text::texts(all@).take(i + 1).drop_last() =~= text::texts(all@).take(i as int));
        assert(text::texts(all@).take(i + 1).last() == all@[i as int]@);
    }
    assert(text::texts(all@).take(all@.len() as int) =~= text::texts(all@));
    out
}

/// The lines for the tables and the warnings of a report.
fn write_summary_lines(report: &DiffReport) -> (r: Vec<String>)
    ensures
        text::texts(r@) == seq![
            "-- ----------------------------------------------------------------"@,
            "-- Data migration script"@,
            "-- ----------------------------------------------------------------"@,
            ""@,
            "-- Tables included:"@,
        ] + report.tables@.map_values(|t: TableDiffReport| comment(t.table_name@)) + seq![""@]
            + warning_lines(report.warnings@),
{
    let ghost head = seq![
        "-- ----------------------------------------------------------------"@,
        "-- Data migration script"@,
        "-- ----------------------------------------------------------------"@,
        ""@,
        "-- Tables included:"@,
    ];
    let mut all: Vec<String> = Vec::new();
    add_line(&mut all, "-- ----------------------------------------------------------------".to_owned());
    add_line(&mut all, "-- Data migration script".to_owned());
    add_line(&mut all, "-- ----------------------------------------------------------------".to_owned());
    add_line(&mut all, "".to_owned());
    add_line(&mut all, "-- Tables included:".to_owned());
    assert(text::texts(all@) =~= head);
    let ghost names = report.tables@.map_values(|t: TableDiffReport| comment(t.table_name@));
    assert(head + names.take(0) =~= head);
    for i in 0..report.tables.len()
        invariant
            names == report.tables@.map_values(|t: TableDiffReport| comment(t.table_name@)),
            text::texts(all@) == head + names.take(i as int),
    {
        add_line(&mut all, write_comment(report.tables[i].table_name.as_str()));
        assert(names.take(i + 1) =~= names.take(i as int).push(names[i as int]));
        assert(text::texts(all@) =~= head + names.take(i + 1));
    }
    assert(names.take(report.tables@.len() as int) =~= names);
    add_line(&mut all, "".to_owned());
    let ghost before = head + names + seq![""@];
    assert(text::texts(all@) =~= before);
    if report.warnings.len() > 0 {
        let ghost warnings = report.warnings@.map_values(|w: String| comment(w@));
        add_line(&mut all, "-- Warnings:".to_owned());
        assert(text::texts(all@) =~= before + (seq!["-- Warnings:"@] + warnings.take(0)));
        for i in 0..report.warnings.len()
            invariant
                warnings == report.warnings@.map_values(|w: String| comment(w@)),
                text::texts(all@) == before + (seq!["-- Warnings:"@] + warnings.take(i as int)),
        {
            add_line(&mut all, write_comment(report.warnings[i].as_str()));
            assert(warnings.take(i + 1) =~= warnings.take(i as int).push(warnings[i as int]));
            assert(text::texts(all@) =~= before + (seq!["-- Warnings:"@] + warnings.take(i + 1)));
        }
        assert(warnings.take(report.warnings@.len() as int) =~= warnings);
        add_line(&mut all, "".to_owned());
        assert(text::texts(all@) =~= before + (seq!["-- Warnings:"@] + warnings + seq![""@]));
    } else {
        assert(before + Seq::<Seq<char>>::empty() =~= before);
    }
    all
}

/// Whether places are those of tables.
pub open spec fn places_fit(places: Seq<usize>, total: nat) -> bool {
    forall|k: int| 0 <= k < places.len() ==> (#[trigger] places[k]) < total
}

/// Whether each of so many tables has exactly one place in an order.
pub open spec fn each_table_once(places: Seq<usize>, total: nat) -> bool {
    &&& places.no_duplicates()
    &&& forall|i: int| 0 <= i < total <==> #[trigger] as_numbers(places).contains(i)
}

/// An order in which each table has one place has places of tables only.
proof fn lemma_each_table_once(places: Seq<usize>, total: nat)
    requires
        each_table_once(places, total),
    ensures
        places_fit(places, total),
{
    assert forall|k: int| 0 <= k < places.len() implies (#[trigger] places[k]) < total by {
        assert(as_numbers(places)[k] == places[k] as int);
        assert(as_numbers(places).contains(places[k] as int));
    }
}

/// Places that are no number twice are different.
proof fn lemma_apart_as_numbers(places: Seq<usize>)
    requires
        as_numbers(places).no_duplicates(),
    ensures
        places.no_duplicates(),
{
    assert forall|k: int, l: int| 0 <= k < l < places.len() implies places[k] != places[l] by {
        assert(as_numbers(places)[k] != as_numbers(places)[l]);
    }
}

/// The lines that run the INSERT and UPDATE scripts.
fn write_change_lines(tables: &[TableDiffReport], places: &[usize]) -> (r: Vec<String>)
    requires
        places_fit(places@, tables@.len()),
    ensures
        text::texts(r@) == change_lines(tables@, places@) + commit_lines(has_changes(tables@)),
{
    let mut all: Vec<String> = Vec::new();
    assert(places@.take(0) =~= Seq::<usize>::empty());
    assert(text::texts(all@) =~= change_lines(tables@, places@.take(0)));
    for k in 0..places.len()
        invariant
            places_fit(places@, tables@.len()),
            text::texts(all@) == change_lines(tables@, places@.take(k as int)),
    {
        let p: usize = places[k];
        let table = &tables[p];
        add_line(&mut all, write_script_line(&table.insert_file, "INSERT", table.table_name.as_str()));
        add_line(&mut all, write_script_line(&table.update_file, "UPDATE", table.table_name.as_str()));
        assert(places@.take(k + 1).drop_last() =~= places@.take(k as int));
        assert(places@.take(k + 1).last() == p);
    }
    assert(places@.take(places@.len() as int) =~= places@);
    let mut any = false;
    for i in 0..tables.len()
        invariant
            any == exists|j: int|
                0 <= j < i && ((#[trigger] tables@[j]).insert_file is Some || tables@[j].update_file is Some),
    {
        if tables[i].insert_file.is_some() || tables[i].update_file.is_some() {
            any = true;
        }
    }
    let ghost before = change_lines(tables@, places@);
    if any {
        add_line(&mut all, "".to_owned());
        add_line(&mut all, "COMMIT;".to_owned());
        assert(text::texts(all@) =~= before + seq![""@, "COMMIT;"@]);
    } else {
        assert(before + Seq::<Seq<char>>::empty() =~= before);
    }
    all
}

/// The lines of the part of the master script that deletes.
fn write_delete_lines(tables: &[TableDiffReport], places: &[usize]) -> (r: Vec<String>)
    requires
        places_fit(places@, tables@.len()),
    ensures
        text::texts(r@) == delete_part(tables@, places@, true),
{
    let ghost head = seq![""@, "-- ---------------"@, "-- DELETE scripts"@, "-- ---------------"@];
    let ghost found = delete_lines(tables@, places@);
    let mut all: Vec<String> = Vec::new();
    add_line(&mut all, "".to_owned());
    add_line(&mut all, "-- ---------------".to_owned());
    add_line(&mut all, "-- DELETE scripts".to_owned());
    add_line(&mut all, "-- ---------------".to_owned());
    assert(text::texts(all@) =~= head + found.take(0));
    for k in 0..places.len()
        invariant
            places_fit(places@, tables@.len()),
            found == delete_lines(tables@, places@),
            text::texts(all@) == head + found.take(k as int),
    {
        let p: usize = places[k];
        let table = &tables[p];
        add_line(&mut all, write_script_line(&table.delete_file, "DELETE", table.table_name.as_str()));
        assert(found.take(k + 1) =~= found.take(k as int).push(found[k as int]));
        assert(text::texts(all@) =~= head + found.take(k + 1));
    }
    assert(found.take(places@.len() as int) =~= found);
    let mut any = false;
    for i in 0..tables.len()
        invariant
            any == exists|j: int| 0 <= j < i && (#[trigger] tables@[j]).delete_file is Some,
    {
        if tables[i].delete_file.is_some() {
            any = true;
        }
    }
    if any {
        add_line(&mut all, "".to_owned());
        add_line(&mut all, "COMMIT;".to_owned());
        assert(text::texts(all@) =~= head + found + seq![""@, "COMMIT;"@]);
    } else {
        assert(head + found + Seq::<Seq<char>>::empty() =~= head + found);
    }
    all
}

/// The master SQL script that runs all per-table scripts: the INSERT and UPDATE scripts in one
/// order, and the DELETE scripts in another.
pub fn write_master_script(
    report: &DiffReport,
    insert_places: &[usize],
    delete_places: &[usize],
    with_deletes: bool,
) -> (r: String)
    requires
        places_fit(insert_places@, report.tables@.len()),
        places_fit(delete_places@, report.tables@.len()),
    ensures
        r@ == table_diff::lines(
            master_lines(*report, insert_places@, delete_places@, with_deletes),
            "\n"@,
        ),
{
    let mut all = write_summary_lines(report);
    let ghost first = text::texts(all@);
    let ghost title = seq![
        "-- ----------------------"@,
        "-- UPDATE/INSERT scripts"@,
        "-- ----------------------"@,
    ];
    add_line(&mut all, "-- ----------------------".to_owned());
    add_line(&mut all, "-- UPDATE/INSERT scripts".to_owned());
    add_line(&mut all, "-- ----------------------".to_owned());
    assert(text::texts(all@) =~= first + title);
    let mut changes = write_change_lines(report.tables.as_slice(), insert_places);
    let ghost second = text::texts(changes@);
    let ghost so_far = all@;
    let ghost added = changes@;
    all.append(&mut changes);
    assert(text::texts(all@) =~= text::texts(so_far) + text::texts(added));
    assert(text::texts(all@) =~= first + title + second);
    let ghost third = delete_part(report.tables@, delete_places@, with_deletes);
    if with_deletes {
        let mut deletes = write_delete_lines(report.tables.as_slice(), delete_places);
        let ghost so_far = all@;
        let ghost added = deletes@;
        all.append(&mut deletes);
        assert(text::texts(all@) =~= text::texts(so_far) + text::texts(added));
    } else {
        assert(text::texts(all@) + third =~= text::texts(all@));
    }
    assert(text::texts(all@) =~= first + title + second + third);
    assert(text::texts(all@) =~= master_lines(*report, insert_places@, delete_places@, with_deletes)) by {
        let c = change_lines(report.tables@, insert_places@);
        let k = commit_lines(has_changes(report.tables@));
        assert(first + title + (c + k) + third =~= first + title + c + k + third);
    }
    write_lines(all.as_slice())
}

/// Whether a table has a name.
pub open spec fn has_name(tables: Seq<TableDiffReport>, name: Seq<char>) -> spec_fn(int) -> bool {
    |i: int| tables[i].table_name@ == name
}

/// Whether a table has none of the names.
pub open spec fn has_other_name(tables: Seq<TableDiffReport>, names: Seq<Seq<char>>) -> spec_fn(int) -> bool {
    |i: int| !names.contains(tables[i].table_name@)
}

/// The places of the tables that have one of the names, in the order of the names.
pub open spec fn named_places(tables: Seq<TableDiffReport>, names: Seq<Seq<char>>) -> Seq<int>
    decreases names.len(),
{
    if names.len() == 0 {
        Seq::empty()
    } else {
        named_places(tables, names.drop_last()) + collections::picked(
            tables.len(),
            has_name(tables, names.last()),
        )
    }
}

/// The places of tables in the order of names, and then those of the tables that have none of
/// the names.
pub open spec fn ordered_places(tables: Seq<TableDiffReport>, names: Seq<Seq<char>>) -> Seq<int> {
    named_places(tables, names) + collections::picked(tables.len(), has_other_name(tables, names))
}

/// Places as numbers.
pub open spec fn as_numbers(places: Seq<usize>) -> Seq<int> {
    places.map_values(|p: usize| p as int)
}

/// The places of tables in the order of names, and then those of the tables that have none of
/// the names.
fn find_ordered_places(tables: &[TableDiffReport], names: &[String]) -> (r: Vec<usize>)
    ensures
        as_numbers(r@) == ordered_places(tables@, text::texts(names@)),
{
    let ghost all = text::texts(names@);
    let n: usize = tables.len();
    let mut places: Vec<usize> = Vec::new();
    assert(all.take(0) =~= Seq::<Seq<char>>::empty());
    assert(as_numbers(places@) =~= named_places(tables@, all.take(0)));
    for k in 0..names.len()
        invariant
            n == tables@.len(),
            all == text::texts(names@),
            as_numbers(places@) == named_places(tables@, all.take(k as int)),
    {
        let ghost before = as_numbers(places@);
        let ghost keep = has_name(tables@, all[k as int]);
        assert(before + collections::picked(0, keep) =~= before);
        for i in 0..n
            invariant
                n == tables@.len(),
                k < names@.len(),
                all == text::texts(names@),
                keep == has_name(tables@, all[k as int]),
                as_numbers(places@) == before + collections::picked(i as nat, keep),
            {
            let ghost so_far = places@;
            if text::same_text(tables[i].table_name.as_str(), names[k].as_str()) {
                assert(keep(i as int));
                places.push(i);
                assert(as_numbers(places@) =~= as_numbers(so_far).push(i as int));
                assert(before + collections::picked(i as nat, keep).push(i as int) =~= (before
                    + collections::picked(i as nat, keep)).push(i as int));
            } else {
                assert(!keep(i as int));
            }
        }
        assert(all.take(k + 1).drop_last() =~= all.take(k as int));
        assert(all.take(k + 1).last() == all[k as int]);
    }
    assert(all.take(names@.len() as int) =~= all);
    let ghost before = as_numbers(places@);
    let ghost keep = has_other_name(tables@, all);
    assert(before + collections::picked(0, keep) =~= before);
    for i in 0..n
        invariant
            n == tables@.len(),
            all == text::texts(names@),
            keep == has_other_name(tables@, all),
            as_numbers(places@) == before + collections::picked(i as nat, keep),
    {
        let ghost so_far = places@;
        if !has_text(names, tables[i].table_name.as_str()) {
            assert(keep(i as int));
            places.push(i);
            assert(as_numbers(places@) =~= as_numbers(so_far).push(i as int));
            assert(before + collections::picked(i as nat, keep).push(i as int) =~= (before
                + collections::picked(i as nat, keep)).push(i as int));
        } else {
            assert(!keep(i as int));
        }
    }
    places
}

/// Whether a text is among strings.
fn has_text(names: &[String], name: &str) -> (r: bool)
    ensures
        r == text::texts(names@).contains(name@),
{
    for i in 0..names.len()
        invariant
            forall|j: int| 0 <= j < i ==> (#[trigger] names@[j])@ != name@,
    {
        if text::same_text(names[i].as_str(), name) {
            assert(text::texts(names@)[i as int] == name@);
            return true;
        }
    }
    false
}

/// The places below a bound, in their order.
fn places_below(n: usize) -> (r: Vec<usize>)
    ensures
        as_numbers(r@) == Seq::new(n as nat, |i: int| i),
        each_table_once(r@, n as nat),
{
    let mut places: Vec<usize> = Vec::new();
    for i in 0..n
        invariant
            places@.len() == i,
            forall|j: int| 0 <= j < i ==> #[trigger] places@[j] == j,
    {
        places.push(i);
    }
    proof {
        assert(as_numbers(places@) =~= Seq::new(n as nat, |i: int| i));
        assert forall|i: int| 0 <= i < n <==> #[trigger] as_numbers(places@).contains(i) by {
            if 0 <= i < n {
                assert(as_numbers(places@)[i] == i);
            }
        }
    }
    places
}

/// Putting tables in an order of names that has none twice neither loses a table nor repeats
/// one.
pub proof fn ordering_keeps_each_table(tables: Seq<TableDiffReport>, names: Seq<Seq<char>>)
    requires
        names.no_duplicates(),
    ensures
        forall|i: int| 0 <= i < tables.len() <==> #[trigger] ordered_places(tables, names).contains(i),
        ordered_places(tables, names).no_duplicates(),
{
    let first = named_places(tables, names);
    let rest = collections::picked(tables.len(), has_other_name(tables, names));
    let all = ordered_places(tables, names);
    lemma_named_places(tables, names);
    collections::lemma_picked(tables.len(), has_other_name(tables, names));
    assert forall|i: int| 0 <= i < tables.len() <==> #[trigger] all.contains(i) by {
        if 0 <= i < tables.len() {
            if names.contains(tables[i].table_name@) {
                assert(first.contains(i));
                assert(all[first.index_of(i)] == i);
            } else {
                assert(has_other_name(tables, names)(i));
                assert(rest.contains(i));
                assert(all[first.len() + rest.index_of(i)] == i);
            }
        }
        if all.contains(i) {
            let k = all.index_of(i);
            if k < first.len() {
                assert(first.contains(first[k]));
            } else {
                assert(rest[k - first.len()] == i);
            }
        }
    }
    assert forall|k: int, l: int| 0 <= k < l < all.len() implies all[k] != all[l] by {
        if k < first.len() && l >= first.len() {
            assert(first.contains(first[k]));
            assert(has_other_name(tables, names)(rest[l - first.len()]));
        } else if k >= first.len() {
            assert(rest[k - first.len()] < rest[l - first.len()]);
        }
    }
}

/// A table whose name comes before another in the order of names comes before it in the order of
/// tables.
pub proof fn ordering_follows_the_names(
    tables: Seq<TableDiffReport>,
    names: Seq<Seq<char>>,
    i: int,
    j: int,
    p: int,
    q: int,
)
    requires
        names.no_duplicates(),
        0 <= i < j < names.len(),
        0 <= p < ordered_places(tables, names).len(),
        0 <= q < ordered_places(tables, names).len(),
        tables[ordered_places(tables, names)[p]].table_name@ == names[i],
        tables[ordered_places(tables, names)[q]].table_name@ == names[j],
    ensures
        p < q,
{
    let first = named_places(tables, names);
    let rest = collections::picked(tables.len(), has_other_name(tables, names));
    lemma_named_places(tables, names);
    collections::lemma_picked(tables.len(), has_other_name(tables, names));
    if p >= first.len() {
        assert(has_other_name(tables, names)(rest[p - first.len()]));
        assert(names.contains(names[i]));
    }
    if q >= first.len() {
        assert(has_other_name(tables, names)(rest[q - first.len()]));
        assert(names.contains(names[j]));
    }
    lemma_named_order(tables, names, i, j, p, q);
}

proof fn lemma_named_order(
    tables: Seq<TableDiffReport>,
    names: Seq<Seq<char>>,
    i: int,
    j: int,
    p: int,
    q: int,
)
    requires
        names.no_duplicates(),
        0 <= i < j < names.len(),
        0 <= p < named_places(tables, names).len(),
        0 <= q < named_places(tables, names).len(),
        tables[named_places(tables, names)[p]].table_name@ == names[i],
        tables[named_places(tables, names)[q]].table_name@ == names[j],
    ensures
        p < q,
    decreases names.len(),
{
    let less = names.drop_last();
    let before = named_places(tables, less);
    let keep = has_name(tables, names.last());
    let more = collections::picked(tables.len(), keep);
    collections::lemma_picked(tables.len(), keep);
    lemma_named_places(tables, less);
    if p >= before.len() {
        assert(keep(more[p - before.len()]));
        assert(names[i] == names[names.len() - 1]);
    }
    if q < before.len() {
        assert(before.contains(before[q]));
        let k = less.index_of(names[j]);
        assert(names[k] == names[j]);
        assert(less[i] == names[i] && less[j] == names[j]);
        lemma_named_order(tables, less, i, j, p, q);
    }
}

proof fn lemma_named_places(tables: Seq<TableDiffReport>, names: Seq<Seq<char>>)
    requires
        names.no_duplicates(),
    ensures
        forall|i: int|
            #[trigger] named_places(tables, names).contains(i) <==> 0 <= i < tables.len() && names.contains(
                tables[i].table_name@,
            ),
        named_places(tables, names).no_duplicates(),
    decreases names.len(),
{
    if names.len() > 0 {
        let less = names.drop_last();
        let before = named_places(tables, less);
        let keep = has_name(tables, names.last());
        let more = collections::picked(tables.len(), keep);
        let all = named_places(tables, names);
        lemma_named_places(tables, less);
        collections::lemma_picked(tables.len(), keep);
        assert forall|i: int|
            #[trigger] all.contains(i) <==> 0 <= i < tables.len() && names.contains(tables[i].table_name@) by {
            if 0 <= i < tables.len() && names.contains(tables[i].table_name@) {
                let k = names.index_of(tables[i].table_name@);
                if k < less.len() {
                    assert(less[k] == tables[i].table_name@);
                    assert(before.contains(i));
                    assert(all[before.index_of(i)] == i);
                } else {
                    assert(keep(i));
                    assert(more.contains(i));
                    assert(all[before.len() + more.index_of(i)] == i);
                }
            }
            if all.contains(i) {
                let k = all.index_of(i);
                if k < before.len() {
                    assert(before.contains(before[k]));
                    let j = less.index_of(tables[i].table_name@);
                    assert(names[j] == tables[i].table_name@);
                } else {
                    assert(more[k - before.len()] == i);
                    assert(keep(i));
                    assert(names[names.len() - 1] == tables[i].table_name@);
                }
            }
        }
        assert forall|k: int, l: int| 0 <= k < l < all.len() implies all[k] != all[l] by {
            if k < before.len() && l >= before.len() {
                assert(before.contains(before[k]));
                assert(keep(more[l - before.len()]));
                let j = less.index_of(tables[before[k]].table_name@);
                assert(names[j] == less[j]);
            } else if k >= before.len() {
                assert(more[k - before.len()] < more[l - before.len()]);
            }
        }
    }
}

/// Top-level orchestrator for comparing data between two PostgreSQL databases.
///
/// Runs in 4 phases:
/// 1. **Schema Comparison** - Compare table schemas, filter out incompatible tables
/// 2. **Analysis & ETC** - Determine chunk strategies and estimate time to completion
/// 3. **Per-Table Diff** - Generate INSERT/UPDATE/DELETE scripts
/// 4. **Master Script** - Write the master SQL script
#[derive(Debug)]
pub struct DataDiff {
    pub config: DiffConfig,
    pub cancelled: bool,
}

/// What a comparison does next.
#[derive(Clone, Copy, Debug, PartialEq, Eq, Structural)]
pub enum DiffPhase {
    /// List the tables of the reference schema.
    Discover,
    /// Compare the schemas.
    Schemas,
    /// Analyze the tables.
    Analysis,
    /// Look for rows to insert or update in a table.
    Diff,
    /// Look for rows to delete in a table.
    Delete,
    /// Fetch the foreign keys, to order the scripts by them.
    Order,
    /// Write the master script.
    Done,
}

/// A comparison that is under way.
#[derive(Debug)]
pub struct DataDiffRun {
    pub config: DiffConfig,
    pub cancelled: bool,
    /// The tables to compare.
    pub pairs: Vec<TablePair>,
    pub analyses: Vec<TableAnalysis>,
    /// The tables that have been compared, and what went wrong.
    pub report: DiffReport,
    /// The table whose rows to delete are looked for.
    pub current: TableDiffReport,
    /// The orders in which the scripts of the tables are run, or stand in a single file.
    pub insert_places: Vec<usize>,
    pub delete_places: Vec<usize>,
    pub phase: DiffPhase,
}

/// The comparison of a table.
#[derive(Debug)]
pub struct TableTask {
    pub diff: TableDataDiff,
    /// The name of the table in the target.
    pub table: String,
    pub table_index: usize,
    pub total_tables: usize,
    pub insert_file: String,
    pub update_file: String,
}

/// Whether each table gets scripts of its own, and there is a master script that runs them. A
/// stream gets the contents of all of them.
pub open spec fn writes_scripts(config: DiffConfig) -> bool {
    config.to_stream || !config.single_file
}

/// Whether enough is known to compare schemas.
pub open spec fn compares_schemas(config: DiffConfig) -> bool {
    config.reference_db_name is Some && config.target_db_name is Some && config.reference_schema is Some
        && config.target_schema is Some
}

/// What follows when the tables are known.
pub open spec fn phase_with_tables(config: DiffConfig) -> DiffPhase {
    if compares_schemas(config) {
        DiffPhase::Schemas
    } else {
        DiffPhase::Analysis
    }
}

/// What follows after so many of the tables.
pub open spec fn phase_after_tables(config: DiffConfig, done: nat, total: nat) -> DiffPhase {
    if done < total {
        DiffPhase::Diff
    } else if config.check_dependencies {
        DiffPhase::Order
    } else {
        DiffPhase::Done
    }
}

/// The names of a discovered table: in the reference schema, and in the target schema, which is
/// the same one where none is given.
pub open spec fn discovered_names(
    reference_schema: Seq<char>,
    target_schema: Option<String>,
    table: Seq<char>,
) -> (Seq<char>, Seq<char>) {
    let target = match target_schema {
        Some(s) => s@,
        None => reference_schema,
    };
    (reference_schema + "."@ + table, target + "."@ + table)
}

/// Whether a pair has the given names.
pub open spec fn is_pair(pair: TablePair, names: (Seq<char>, Seq<char>)) -> bool {
    pair.reference@ == names.0 && pair.target@ == names.1
}

/// What is said of a table whose schemas do not match.
pub open spec fn mismatch_warning(table: Seq<char>, message: Seq<char>) -> Seq<char> {
    "Schema mismatch for '"@ + table + "': "@ + message
        + ". Add to exclusion list or define a timestamp column."@
}

/// Whether the schemas of a table do not match.
pub open spec fn is_mismatch(results: Map<Seq<char>, SchemaComparisonResult>) -> spec_fn(Seq<char>) -> bool {
    |table: Seq<char>| results.contains_key(table) && results[table] is Mismatch
}

/// What is said of the tables whose schemas do not match.
pub open spec fn mismatch_warnings(results: TextMap<SchemaComparisonResult>) -> Seq<Seq<char>> {
    results.order().filter(is_mismatch(results@)).map_values(
        |table: Seq<char>| mismatch_warning(table, results@[table]->message@),
    )
}

/// Whether a pair of tables is compared: the schemas of its reference table do not differ.
pub open spec fn is_active(results: Map<Seq<char>, SchemaComparisonResult>) -> spec_fn(TablePair) -> bool {
    |pair: TablePair| !is_mismatch(results)(config::table_part(pair.reference@))
}

/// Whether the comparison of a table is set up as configured.
pub open spec fn is_configured(
    diff: TableDataDiff,
    config: DiffConfig,
    pair: TablePair,
    analyses: Seq<TableAnalysis>,
) -> bool {
    &&& diff.ref_table@ == pair.reference@
    &&& diff.target_table@ == pair.target@
    &&& diff.chunk_size == if config.chunk_size == 0 {
        1
    } else {
        config.chunk_size as int
    }
    &&& diff.columns_to_ignore@ == collections::lowered(config.columns_to_ignore@)
    &&& diff.exclude_columns@ == if config.exclude_ignored_columns {
        collections::lowered(config.columns_to_ignore@)
    } else {
        Set::empty()
    }
    &&& config::list_texts(diff.alternate_keys) == config::alternate_keys_of_table(
        config.alternate_keys@,
        config::table_part(pair.target@),
        config::table_part(pair.reference@),
    )
    &&& diff.exclude_real_pk == config.exclude_real_pk
    &&& crate::chunk_strategy::owned_text_of(diff.table_where) == table_diff::bare_filter(config.table_where)
    &&& diff.include_identity_columns == config.include_identity_columns
    &&& diff.target_schema == config.target_schema
    &&& diff.analysis == estimation::analysis_of(analyses, pair.reference@)
    &&& !diff.cancelled
}

/// The name of a script, where tables have scripts and there is something to write.
pub open spec fn script_file(config: DiffConfig, table: Seq<char>, ending: Seq<char>, count: u64) -> Option<Seq<char>> {
    if writes_scripts(config) && count > 0 {
        Some(table + ending)
    } else {
        None
    }
}

/// Whether a table is reported with so many statements, and the names of their scripts.
pub open spec fn reports(
    t: TableDiffReport,
    config: DiffConfig,
    table: Seq<char>,
    stats: DiffStats,
    deletes: u64,
) -> bool {
    &&& t.table_name@ == table
    &&& t.inserts == stats.inserts
    &&& t.updates == stats.updates
    &&& t.deletes == deletes
    &&& crate::chunk_strategy::owned_text_of(t.insert_file) == script_file(
        config,
        table,
        "_$insert.sql"@,
        stats.inserts,
    )
    &&& crate::chunk_strategy::owned_text_of(t.update_file) == script_file(
        config,
        table,
        "_$update.sql"@,
        stats.updates,
    )
    &&& crate::chunk_strategy::owned_text_of(t.delete_file) == script_file(
        config,
        table,
        "_$delete.sql"@,
        deletes,
    )
}

impl DataDiff {
    pub fn new(config: DiffConfig) -> (r: DataDiff)
        ensures
            r == (DataDiff { config, cancelled: false }),
    {
        DataDiff { config, cancelled: false }
    }

    pub fn cancel(&mut self)
        ensures
            *final(self) == (DataDiff { cancelled: true, ..*old(self) }),
    {
        self.cancelled = true;
    }

    /// Starts the full data diff operation. Where no tables are given they are discovered from
    /// the reference schema, if there is one.
    pub fn run(self) -> (r: DataDiffRun)
        ensures
            r.valid(),
            r.config == self.config,
            r.cancelled == self.cancelled,
            r.pairs@ == self.config.tables@,
            r.report.tables@.len() == 0,
            r.report.warnings@.len() == 0,
            r.report.master_script is None,
            r.phase == if self.config.tables@.len() == 0 && self.config.reference_schema is Some {
                DiffPhase::Discover
            } else {
                phase_with_tables(self.config)
            },
    {
        let pairs = config::copy_pairs(self.config.tables.as_slice());
        let phase = if pairs.len() == 0 && self.config.reference_schema.is_some() {
            DiffPhase::Discover
        } else {
            find_phase_with_tables(&self.config)
        };
        DataDiffRun {
            config: self.config,
            cancelled: self.cancelled,
            pairs,
            analyses: Vec::new(),
            report: DiffReport { tables: Vec::new(), warnings: Vec::new(), master_script: None },
            current: empty_report(String::new()),
            insert_places: Vec::new(),
            delete_places: Vec::new(),
            phase,
        }
    }
}

/// What follows when the tables are known.
fn find_phase_with_tables(config: &DiffConfig) -> (r: DiffPhase)
    ensures
        r == phase_with_tables(*config),
{
    if config.reference_db_name.is_some() && config.target_db_name.is_some()
        && config.reference_schema.is_some() && config.target_schema.is_some() {
        DiffPhase::Schemas
    } else {
        DiffPhase::Analysis
    }
}

/// The report of a table for which nothing was written.
fn empty_report(table_name: String) -> (r: TableDiffReport)
    ensures
        r == (TableDiffReport {
            table_name,
            inserts: 0,
            updates: 0,
            deletes: 0,
            insert_file: None,
            update_file: None,
            delete_file: None,
        }),
{
    TableDiffReport {
        table_name,
        inserts: 0,
        updates: 0,
        deletes: 0,
        insert_file: None,
        update_file: None,
        delete_file: None,
    }
}

/// A table's name with an ending.
fn file_name(table: &str, ending: &str) -> (r: String)
    ensures
        r@ == table@ + ending@,
{
    let mut out = table.to_owned();
    out.append(ending);
    out
}

impl DataDiffRun {
    /// Whether the parts of the comparison fit together: the tables reported so far are the
    /// first of the pairs, in their order, and none is left out. When all is done, each of them
    /// comes once in the orders in which the master script runs their scripts.
    pub open spec fn valid(self) -> bool {
        &&& self.phase is Discover || self.phase is Schemas || self.phase is Analysis
            ==> self.report.tables@.len() == 0
        &&& self.phase is Diff || self.phase is Delete ==> self.report.tables@.len() < self.pairs@.len()
        &&& self.phase is Order || self.phase is Done ==> self.report.tables@.len() == self.pairs@.len()
        &&& self.report.tables@.len() <= self.pairs@.len()
        &&& forall|i: int|
            0 <= i < self.report.tables@.len() ==> (#[trigger] self.report.tables@[i]).table_name@
                == config::table_part(self.pairs@[i].target@)
        &&& forall|i: int|
            0 <= i < self.report.tables@.len() ==> names_scripts(#[trigger] self.report.tables@[i], self.config)
        &&& self.phase is Delete ==> self.config.include_delete && self.current.table_name@
            == config::table_part(self.pair().target@) && self.current.deletes == 0 && names_scripts(
            self.current,
            self.config,
        )
        &&& self.phase is Done ==> each_table_once(self.insert_places@, self.report.tables@.len())
            && each_table_once(self.delete_places@, self.report.tables@.len())
        &&& self.report.master_script is None
        &&& self.phase is Discover ==> self.config.reference_schema is Some
    }

    /// The pair that is compared.
    pub open spec fn pair(self) -> TablePair {
        self.pairs@[self.report.tables@.len() as int]
    }

    /// The name of the table that is compared.
    pub open spec fn table(self) -> Seq<char> {
        config::table_part(self.pair().target@)
    }

    /// Whether a comparison goes on with the same tables in the same way.
    pub open spec fn same_task(self, other: DataDiffRun) -> bool {
        &&& self.config == other.config
        &&& self.cancelled == other.cancelled
        &&& self.pairs == other.pairs
        &&& self.analyses == other.analyses
    }

    pub fn cancel(&mut self)
        requires
            old(self).valid(),
        ensures
            final(self).valid(),
            *final(self) == (DataDiffRun { cancelled: true, ..*old(self) }),
    {
        self.cancelled = true;
    }

    /// Takes the names of the tables of the reference schema.
    pub fn take_tables(&mut self, names: &[String])
        requires
            old(self).valid(),
            old(self).phase is Discover,
        ensures
            final(self).valid(),
            final(self).config == old(self).config,
            final(self).cancelled == old(self).cancelled,
            final(self).report == old(self).report,
            final(self).pairs@.len() == names@.len(),
            forall|i: int|
                0 <= i < names@.len() ==> is_pair(#[trigger] final(self).pairs@[i], discovered_names(
                    old(self).config.reference_schema->0@,
                    old(self).config.target_schema,
                    names@[i]@,
                )),
            final(self).phase == phase_with_tables(old(self).config),
    {
        let mut pairs: Vec<TablePair> = Vec::new();
        if let Some(reference_schema) = &self.config.reference_schema {
            let target_schema = match &self.config.target_schema {
                Some(schema) => schema.as_str(),
                None => reference_schema.as_str(),
            };
            for i in 0..names.len()
                invariant
                    pairs@.len() == i,
                    target_schema@ == match self.config.target_schema {
                        Some(s) => s@,
                        None => reference_schema@,
                    },
                    forall|j: int|
                        0 <= j < i ==> is_pair(
                            #[trigger] pairs@[j],
                            discovered_names(reference_schema@, self.config.target_schema, names@[j]@),
                        ),
            {
                let mut reference = reference_schema.clone();
                reference.append(".");
                reference.append(names[i].as_str());
                let mut target = target_schema.to_owned();
                target.append(".");
                target.append(names[i].as_str());
                pairs.push(TablePair { reference, target });
            }
        }
        self.pairs = pairs;
        self.phase = find_phase_with_tables(&self.config);
    }

    /// Takes the results of the schema comparison: a table whose schemas do not match is warned
    /// of, and not compared. Returns the table and the result of each, for the progress.
    pub fn take_schema_results(
        &mut self,
        results: &TextMap<SchemaComparisonResult>,
    ) -> (r: Vec<(String, String)>)
        requires
            old(self).valid(),
            old(self).phase is Schemas,
        ensures
            final(self).valid(),
            final(self).config == old(self).config,
            final(self).cancelled == old(self).cancelled,
            final(self).pairs@ == old(self).pairs@.filter(is_active(results@)),
            final(self).report.tables == old(self).report.tables,
            text::texts(final(self).report.warnings@) == text::texts(old(self).report.warnings@)
                + mismatch_warnings(*results),
            final(self).phase is Analysis,
            r@.len() == results.order().len(),
            forall|i: int|
                0 <= i < r@.len() ==> (#[trigger] r@[i]).0@ == results.order()[i] && r@[i].1@
                    == schema_compare::result_text(results@[results.order()[i]]),
    {
        let n: usize = results.len();
        let ghost order = results.order();
        let ghost keep = is_mismatch(results@);
        let ghost said = |table: Seq<char>| mismatch_warning(table, results@[table]->message@);
        let ghost had = text::texts(self.report.warnings@);
        let mut warnings: Vec<String> = Vec::new();
        let mut told: Vec<(String, String)> = Vec::new();
        proof {
            reveal(Seq::filter);
            assert(text::texts(warnings@) =~= order.take(0).filter(keep).map_values(said));
        }
        for i in 0..n
            invariant
                n == order.len(),
                order == results.order(),
                keep == is_mismatch(results@),
                said == (|table: Seq<char>| mismatch_warning(table, results@[table]->message@)),
                text::texts(warnings@) == order.take(i as int).filter(keep).map_values(said),
                told@.len() == i,
                forall|j: int|
                    0 <= j < i ==> (#[trigger] told@[j]).0@ == order[j] && told@[j].1@
                        == schema_compare::result_text(results@[order[j]]),
        {
            let ghost before = warnings@;
            let ghost less = order.take(i as int);
            let table = results.key_at(i);
            let result = results.value_at(i);
            proof {
                assert(order.take(i + 1) =~= less.push(table@));
                less.lemma_filter_push(table@, keep);
            }
            told.push((table.to_owned(), schema_compare::describe_result(result)));
            if let SchemaComparisonResult::Mismatch { message } = result {
                let mut warning = "Schema mismatch for '".to_owned();
                warning.append(table);
                warning.append("': ");
                warning.append(message.as_str());
                warning.append(". Add to exclusion list or define a timestamp column.");
                warnings.push(warning);
                proof {
                    assert(warning@ =~= said(table@));
                    assert(text::texts(warnings@) =~= text::texts(before).push(warning@));
                    assert(less.filter(keep).push(table@).map_values(said) =~= less.filter(keep).map_values(
                        said,
                    ).push(said(table@)));
                }
            }
        }
        assert(order.take(n as int) =~= order);
        let ghost added = warnings@;
        let ghost so_far = self.report.warnings@;
        self.report.warnings.append(&mut warnings);
        assert(text::texts(self.report.warnings@) =~= text::texts(so_far) + text::texts(added));
        let active = active_pairs(self.pairs.as_slice(), results);
        self.pairs = active;
        self.phase = DiffPhase::Analysis;
        told
    }

    /// Takes the analyses of the tables.
    pub fn take_analyses(&mut self, analyses: Vec<TableAnalysis>)
        requires
            old(self).valid(),
            old(self).phase is Analysis,
        ensures
            final(self).valid(),
            final(self).config == old(self).config,
            final(self).cancelled == old(self).cancelled,
            final(self).pairs == old(self).pairs,
            final(self).analyses == analyses,
            final(self).report == old(self).report,
            final(self).phase == phase_after_tables(old(self).config, 0, old(self).pairs@.len()),
            final(self).phase is Done ==> in_report_order(*final(self)),
    {
        self.analyses = analyses;
        self.enter_next_table();
    }

    /// What follows after the tables that have been reported.
    fn enter_next_table(&mut self)
        requires
            old(self).report.tables@.len() <= old(self).pairs@.len(),
            forall|i: int|
                0 <= i < old(self).report.tables@.len() ==> (#[trigger] old(self).report.tables@[i]).table_name@
                    == config::table_part(old(self).pairs@[i].target@),
            forall|i: int|
                0 <= i < old(self).report.tables@.len() ==> names_scripts(
                    #[trigger] old(self).report.tables@[i],
                    old(self).config,
                ),
            old(self).report.master_script is None,
        ensures
            final(self).valid(),
            final(self).same_task(*old(self)),
            final(self).report == old(self).report,
            final(self).phase == phase_after_tables(
                old(self).config,
                old(self).report.tables@.len(),
                old(self).pairs@.len(),
            ),
            final(self).phase is Done ==> in_report_order(*final(self)),
    {
        let done: usize = self.report.tables.len();
        self.insert_places = Vec::new();
        self.delete_places = Vec::new();
        if done < self.pairs.len() {
            self.phase = DiffPhase::Diff;
        } else if self.config.check_dependencies {
            self.phase = DiffPhase::Order;
        } else {
            self.insert_places = places_below(done);
            self.delete_places = places_below(done);
            self.phase = DiffPhase::Done;
        }
    }

    /// What is to be compared next. Where the comparison was cancelled there is nothing.
    pub fn table_task(&self) -> (r: Result<TableTask, DataDiffError>)
        requires
            self.valid(),
            self.phase is Diff,
        ensures
            r is Err <==> self.cancelled,
            r matches Err(e) ==> e is Cancelled,
            r matches Ok(task) ==> {
                &&& is_configured(task.diff, self.config, self.pair(), self.analyses@)
                &&& task.table@ == self.table()
                &&& task.table_index == self.report.tables@.len()
                &&& task.total_tables == self.pairs@.len()
                &&& task.insert_file@ == self.table() + "_$insert.sql"@
                &&& task.update_file@ == self.table() + "_$update.sql"@
            },
    {
        if self.cancelled {
            return Err(DataDiffError::Cancelled);
        }
        let at: usize = self.report.tables.len();
        let pair = &self.pairs[at];
        let (_, reference) = config::parse_table_name(pair.reference.as_str());
        let (_, table) = config::parse_table_name(pair.target.as_str());
        let mut diff = TableDataDiff::new(pair.reference.clone(), pair.target.clone());
        diff.set_chunk_size(self.config.chunk_size);
        diff.set_columns_to_ignore(&self.config.columns_to_ignore);
        diff.set_alternate_keys(self.config.alternate_keys_for(table, reference));
        diff.set_exclude_real_pk(self.config.exclude_real_pk);
        diff.set_table_where(config::copy_option(&self.config.table_where));
        diff.set_include_identity_columns(self.config.include_identity_columns);
        diff.set_target_schema(config::copy_option(&self.config.target_schema));
        let analysis = match estimation::find_analysis(self.analyses.as_slice(), pair.reference.as_str()) {
            Some(analysis) => Some(analysis.duplicate()),
            None => None,
        };
        diff.set_analysis(analysis);
        if self.config.exclude_ignored_columns {
            diff.set_exclude_columns(&self.config.columns_to_ignore);
        }
        Ok(
            TableTask {
                diff,
                table: table.to_owned(),
                table_index: at,
                total_tables: self.pairs.len(),
                insert_file: file_name(table, "_$insert.sql"),
                update_file: file_name(table, "_$update.sql"),
            },
        )
    }

    /// Takes the outcome of the search for rows to insert or update. An error that can be
    /// turned into a warning ends the comparison of the table only.
    pub fn take_diff(&mut self, outcome: Result<DiffStats, DataDiffError>) -> (r: Result<(), DataDiffError>)
        requires
            old(self).valid(),
            old(self).phase is Diff,
        ensures
            final(self).valid(),
            final(self).same_task(*old(self)),
            ({
                let table = old(self).table();
                let next = phase_after_tables(
                    old(self).config,
                    old(self).report.tables@.len() + 1,
                    old(self).pairs@.len(),
                );
                match outcome {
                    Ok(stats) => {
                        &&& r is Ok
                        &&& text::texts(final(self).report.warnings@) == text::texts(old(self).report.warnings@)
                        &&& if old(self).config.include_delete {
                            &&& final(self).phase is Delete
                            &&& final(self).report.tables == old(self).report.tables
                            &&& reports(final(self).current, old(self).config, table, stats, 0)
                        } else {
                            &&& final(self).phase == next
                            &&& added_report(*old(self), *final(self))
                            &&& reports(
                                final(self).report.tables@.last(),
                                old(self).config,
                                table,
                                stats,
                                0,
                            )
                        }
                    },
                    Err(e) => match warning_of(e) {
                        Some(w) => {
                            &&& r is Ok
                            &&& final(self).phase == next
                            &&& text::texts(final(self).report.warnings@) == text::texts(
                                old(self).report.warnings@,
                            ).push(w)
                            &&& added_report(*old(self), *final(self))
                            &&& reports(
                                final(self).report.tables@.last(),
                                old(self).config,
                                table,
                                (DiffStats { inserts: 0, updates: 0 }),
                                0,
                            )
                        },
                        None => r == Err::<(), DataDiffError>(e) && *final(self) == *old(self),
                    },
                }
            }),
            final(self).phase is Done ==> in_report_order(*final(self)),
    {
        let at: usize = self.report.tables.len();
        let scripts = self.config.to_stream || !self.config.single_file;
        let (_, table) = config::parse_table_name(self.pairs[at].target.as_str());
        match outcome {
            Ok(stats) => {
                let mut current = empty_report(table.to_owned());
                current.inserts = stats.inserts;
                current.updates = stats.updates;
                if scripts && stats.inserts > 0 {
                    current.insert_file = Some(file_name(table, "_$insert.sql"));
                }
                if scripts && stats.updates > 0 {
                    current.update_file = Some(file_name(table, "_$update.sql"));
                }
                if self.config.include_delete {
                    self.current = current;
                    self.phase = DiffPhase::Delete;
                } else {
                    self.add_report(current);
                }
                Ok(())
            },
            Err(e) => {
                match diff_error_to_warning(&e) {
                    Some(warning) => {
                        let report = empty_report(table.to_owned());
                        let ghost before = self.report.warnings@;
                        self.report.warnings.push(warning);
                        assert(text::texts(self.report.warnings@) =~= text::texts(before).push(warning@));
                        self.add_report(report);
                        Ok(())
                    },
                    None => Err(e),
                }
            },
        }
    }

    /// Reports a table, and goes on to the next one.
    fn add_report(&mut self, report: TableDiffReport)
        requires
            old(self).valid(),
            old(self).phase is Diff || old(self).phase is Delete,
            report.table_name@ == old(self).table(),
            names_scripts(report, old(self).config),
        ensures
            final(self).valid(),
            final(self).same_task(*old(self)),
            final(self).report.tables@ == old(self).report.tables@.push(report),
            added_report(*old(self), *final(self)),
            final(self).report.warnings == old(self).report.warnings,
            final(self).phase == phase_after_tables(
                old(self).config,
                old(self).report.tables@.len() + 1,
                old(self).pairs@.len(),
            ),
            final(self).phase is Done ==> in_report_order(*final(self)),
    {
        let ghost before = self.report.tables@;
        self.report.tables.push(report);
        assert(self.report.tables@.drop_last() =~= before);
        proof {
            assert forall|i: int| 0 <= i < self.report.tables@.len() implies (
            #[trigger] self.report.tables@[i]).table_name@ == config::table_part(self.pairs@[i].target@) by {
                if i < before.len() {
                    assert(self.report.tables@[i] == before[i]);
                }
            }
            assert forall|i: int| 0 <= i < self.report.tables@.len() implies names_scripts(
                #[trigger] self.report.tables@[i],
                self.config,
            ) by {
                if i < before.len() {
                    assert(self.report.tables@[i] == before[i]);
                }
            }
        }
        self.enter_next_table();
    }

    /// The search for rows to delete in the table.
    pub fn delete_task(&self) -> (r: TableDeleteSync)
        requires
            self.valid(),
            self.phase is Delete,
        ensures
            r.target_table@ == self.pair().target@,
            r.ref_table@ == self.pair().reference@,
            r.chunk_size == if self.config.chunk_size == 0 {
                1
            } else {
                self.config.chunk_size as int
            },
            config::list_texts(r.alternate_keys) == config::alternate_keys_of_table(
                self.config.alternate_keys@,
                config::table_part(self.pair().target@),
                config::table_part(self.pair().reference@),
            ),
            crate::chunk_strategy::owned_text_of(r.table_where) == table_diff::bare_filter(
                self.config.table_where,
            ),
            !r.cancelled,
    {
        let pair = &self.pairs[self.report.tables.len()];
        let (_, reference) = config::parse_table_name(pair.reference.as_str());
        let (_, table) = config::parse_table_name(pair.target.as_str());
        let mut sync = TableDeleteSync::new(pair.target.clone(), pair.reference.clone());
        sync.set_chunk_size(self.config.chunk_size);
        sync.set_alternate_keys(self.config.alternate_keys_for(table, reference));
        sync.set_table_where(config::copy_option(&self.config.table_where));
        sync
    }

    /// The name of the script that deletes rows of the table.
    pub fn delete_file(&self) -> (r: String)
        requires
            self.valid(),
            self.phase is Delete,
        ensures
            r@ == self.table() + "_$delete.sql"@,
    {
        file_name(self.current.table_name.as_str(), "_$delete.sql")
    }

    /// Takes the outcome of the search for rows to delete. A table without a key is passed over.
    pub fn take_delete(&mut self, outcome: Result<u64, DataDiffError>) -> (r: Result<(), DataDiffError>)
        requires
            old(self).valid(),
            old(self).phase is Delete,
        ensures
            final(self).valid(),
            final(self).same_task(*old(self)),
            match outcome {
                Ok(deletes) => {
                    &&& r is Ok
                    &&& moved_on(*old(self), *final(self))
                    &&& final(self).report.tables@.last().deletes == deletes
                    &&& crate::chunk_strategy::owned_text_of(final(self).report.tables@.last().delete_file)
                        == script_file(old(self).config, old(self).table(), "_$delete.sql"@, deletes)
                },
                Err(DataDiffError::NoPrimaryKey(_)) => {
                    &&& r is Ok
                    &&& moved_on(*old(self), *final(self))
                    &&& final(self).report.tables@.last() == old(self).current
                },
                Err(e) => r == Err::<(), DataDiffError>(e) && *final(self) == *old(self),
            },
            final(self).phase is Done ==> in_report_order(*final(self)),
    {
        let scripts = self.config.to_stream || !self.config.single_file;
        match outcome {
            Ok(deletes) => {
                let file = self.delete_file();
                let mut report = self.take_current();
                report.deletes = deletes;
                if scripts && deletes > 0 {
                    report.delete_file = Some(file);
                }
                self.add_report(report);
                Ok(())
            },
            Err(DataDiffError::NoPrimaryKey(_)) => {
                let report = self.take_current();
                self.add_report(report);
                Ok(())
            },
            Err(e) => Err(e),
        }
    }

    /// The report of the table whose rows to delete were looked for.
    fn take_current(&mut self) -> (r: TableDiffReport)
        requires
            old(self).valid(),
            old(self).phase is Delete,
        ensures
            r == old(self).current,
            final(self).phase is Diff,
            final(self).valid(),
            final(self).same_task(*old(self)),
            final(self).report == old(self).report,
            names_scripts(r, old(self).config),
    {
        let mut current = empty_report(String::new());
        core::mem::swap(&mut current, &mut self.current);
        self.phase = DiffPhase::Diff;
        current
    }

    /// Takes the foreign keys between tables: INSERT and UPDATE scripts are ordered for inserts
    /// by them, and DELETE scripts for deletes. Without any the order stays as it is.
    pub fn take_dependencies(&mut self, deps: &[FkDependency])
        requires
            old(self).valid(),
            old(self).phase is Order,
        ensures
            final(self).valid(),
            final(self).same_task(*old(self)),
            final(self).report == old(self).report,
            final(self).phase is Done,
            ordered_by(*final(self), deps@),
    {
        let n: usize = self.report.tables.len();
        if deps.len() == 0 {
            self.insert_places = places_below(n);
            self.delete_places = places_below(n);
            self.phase = DiffPhase::Done;
        } else {
            let mut names: Vec<String> = Vec::new();
            for i in 0..n
                invariant
                    n == self.report.tables@.len(),
                    text::texts(names@) == report_names(self.report.tables@).take(i as int),
            {
                let ghost before = names@;
                names.push(self.report.tables[i].table_name.clone());
                proof {
                    let all = report_names(self.report.tables@);
                    assert(text::texts(names@) =~= text::texts(before).push(all[i as int]));
                    assert(text::texts(names@) =~= all.take(i + 1));
                }
            }
            assert(text::texts(names@) =~= report_names(self.report.tables@));
            let for_insert = metadata::sort_for_insert(names.as_slice(), deps);
            let for_delete = metadata::sort_for_delete(names.as_slice(), deps);
            self.insert_places = find_ordered_places(self.report.tables.as_slice(), for_insert.as_slice());
            self.delete_places = find_ordered_places(self.report.tables.as_slice(), for_delete.as_slice());
            self.phase = DiffPhase::Done;
            proof {
                let order = metadata::insert_order(names@, deps@);
                lemma_order_has_none_twice(names@, deps@);
                ordering_keeps_each_table(self.report.tables@, order);
                ordering_keeps_each_table(self.report.tables@, order.reverse());
                lemma_apart_as_numbers(self.insert_places@);
                lemma_apart_as_numbers(self.delete_places@);
                assert(sorted_by(*self, names@, deps@));
            }
        }
    }

    /// The schemas whose foreign keys order the scripts: each schema of a target table once, where
    /// none stands for the current one.
    pub fn dependency_schemas(&self) -> (r: Vec<Option<String>>)
        ensures
            schema_texts(r@).no_duplicates(),
            forall|schema: Option<Seq<char>>| #[trigger]
                schema_texts(r@).contains(schema) <==> has_target_in(self.pairs@, schema),
    {
        let mut all: Vec<Option<String>> = Vec::new();
        for i in 0..self.pairs.len()
            invariant
                schema_texts(all@).no_duplicates(),
                forall|schema: Option<Seq<char>>| #[trigger]
                    schema_texts(all@).contains(schema) <==> has_target_in(self.pairs@.take(i as int), schema),
        {
            let (schema, _) = config::parse_table_name(self.pairs[i].target.as_str());
            let schema: Option<String> = match schema {
                Some(s) => Some(s.to_owned()),
                None => None,
            };
            let ghost named = config::schema_part(self.pairs@[i as int].target@);
            let ghost before = all@;
            assert(crate::chunk_strategy::owned_text_of(schema) == named);
            if !has_schema(all.as_slice(), &schema) {
                all.push(schema);
                assert(schema_texts(all@) =~= schema_texts(before).push(named));
            }
            proof {
                let now = schema_texts(all@);
                assert forall|s: Option<Seq<char>>| #[trigger] now.contains(s) <==> has_target_in(
                    self.pairs@.take(i + 1),
                    s,
                ) by {
                    lemma_one_more_target(self.pairs@, i as int, s);
                    if now != schema_texts(before) {
                        vstd::seq_lib::lemma_seq_contains_after_push(schema_texts(before), named, s);
                    }
                }
            }
        }
        assert(self.pairs@.take(self.pairs@.len() as int) =~= self.pairs@);
        all
    }

    /// What a single file holds, given the SQL of each table that was compared.
    pub fn single_file_text(&self, tables: &[TableSql]) -> (r: String)
        requires
            self.valid(),
            self.phase is Done,
            tables@.len() == self.report.tables@.len(),
        ensures
            r@ == single_file::single_file(tables@, self.insert_places@, self.delete_places@),
    {
        proof {
            lemma_each_table_once(self.insert_places@, self.report.tables@.len());
            lemma_each_table_once(self.delete_places@, self.report.tables@.len());
        }
        single_file::write_single_file(tables, self.insert_places.as_slice(), self.delete_places.as_slice())
    }

    /// Ends the comparison: the report, and the master script where tables have scripts of
    /// their own. With a stream there is the same master script, but the report names no files.
    pub fn finish(self) -> (r: (DiffReport, Option<String>))
        requires
            self.valid(),
            self.phase is Done,
        ensures
            r.0.tables@ == if self.config.to_stream {
                self.report.tables@.map_values(|t: TableDiffReport| without_files(t))
            } else {
                self.report.tables@
            },
            r.0.warnings == self.report.warnings,
            r.0.master_script == if !self.cancelled && !self.config.to_stream {
                Some(self.config.output_file)
            } else {
                None
            },
            r.1 is Some <==> !self.cancelled && writes_scripts(self.config),
            r.1 matches Some(script) ==> script@ == table_diff::lines(
                master_lines(
                    self.report,
                    self.insert_places@,
                    self.delete_places@,
                    self.config.include_delete,
                ),
                "\n"@,
            ),
    {
        proof {
            lemma_each_table_once(self.insert_places@, self.report.tables@.len());
            lemma_each_table_once(self.delete_places@, self.report.tables@.len());
        }
        let script = if !self.cancelled && (self.config.to_stream || !self.config.single_file) {
            Some(
                write_master_script(
                    &self.report,
                    self.insert_places.as_slice(),
                    self.delete_places.as_slice(),
                    self.config.include_delete,
                ),
            )
        } else {
            None
        };
        let tables = if self.config.to_stream {
            drop_files(self.report.tables)
        } else {
            self.report.tables
        };
        let master_script = if !self.cancelled && !self.config.to_stream {
            Some(self.config.output_file)
        } else {
            None
        };
        (DiffReport { tables, warnings: self.report.warnings, master_script }, script)
    }
}

/// The texts of schemas.
pub open spec fn schema_texts(schemas: Seq<Option<String>>) -> Seq<Option<Seq<char>>> {
    schemas.map_values(|s: Option<String>| crate::chunk_strategy::owned_text_of(s))
}

/// Whether one of the target tables is in a schema.
pub open spec fn has_target_in(pairs: Seq<TablePair>, schema: Option<Seq<char>>) -> bool {
    exists|i: int| 0 <= i < pairs.len() && config::schema_part((#[trigger] pairs[i]).target@) == schema
}

proof fn lemma_one_more_target(pairs: Seq<TablePair>, i: int, schema: Option<Seq<char>>)
    requires
        0 <= i < pairs.len(),
    ensures
        has_target_in(pairs.take(i + 1), schema) <==> has_target_in(pairs.take(i), schema)
            || config::schema_part(pairs[i].target@) == schema,
{
    let less = pairs.take(i);
    let more = pairs.take(i + 1);
    assert(more[i] == pairs[i]);
    if has_target_in(less, schema) {
        let j = choose|j: int| 0 <= j < less.len() && config::schema_part((#[trigger] less[j]).target@) == schema;
        assert(more[j] == less[j]);
    }
    if has_target_in(more, schema) {
        let j = choose|j: int| 0 <= j < more.len() && config::schema_part((#[trigger] more[j]).target@) == schema;
        if j < i {
            assert(less[j] == more[j]);
        }
    }
}

/// Whether a schema is among others.
fn has_schema(schemas: &[Option<String>], schema: &Option<String>) -> (r: bool)
    ensures
        r == schema_texts(schemas@).contains(crate::chunk_strategy::owned_text_of(*schema)),
{
    for i in 0..schemas.len()
        invariant
            forall|j: int|
                0 <= j < i ==> schema_texts(schemas@)[j] != crate::chunk_strategy::owned_text_of(*schema),
    {
        let same = match (&schemas[i], schema) {
            (Some(a), Some(b)) => text::same_text(a.as_str(), b.as_str()),
            (None, None) => true,
            _ => false,
        };
        assert(schema_texts(schemas@)[i as int] == crate::chunk_strategy::owned_text_of(schemas@[i as int]));
        if same {
            return true;
        }
    }
    false
}

/// The report of a table without the names of its scripts.
pub open spec fn without_files(t: TableDiffReport) -> TableDiffReport {
    TableDiffReport { insert_file: None, update_file: None, delete_file: None, ..t }
}

/// The reports of tables without the names of their scripts.
fn drop_files(tables: Vec<TableDiffReport>) -> (r: Vec<TableDiffReport>)
    ensures
        r@ == tables@.map_values(|t: TableDiffReport| without_files(t)),
{
    let ghost all = tables@;
    let mut out: Vec<TableDiffReport> = Vec::new();
    for table in it: tables
        invariant
            it.seq() == all,
            out@ == all.map_values(|t: TableDiffReport| without_files(t)).take(it.index() as int),
    {
        let ghost i = it.index() as int;
        assert(table == all[i]);
        out.push(
            TableDiffReport {
                table_name: table.table_name,
                inserts: table.inserts,
                updates: table.updates,
                deletes: table.deletes,
                insert_file: None,
                update_file: None,
                delete_file: None,
            },
        );
        assert(out@ =~= all.map_values(|t: TableDiffReport| without_files(t)).take(i + 1));
    }
    out
}

/// A stream gets the master script that files would get: where the same tables are compared with
/// the same outcome, and have the same dependencies, a comparison to a stream ends with the same
/// script as one to files.
pub proof fn a_stream_gets_the_same_master_script(a: DataDiffRun, b: DataDiffRun, deps: Seq<FkDependency>)
    requires
        a.valid(),
        b.valid(),
        a.phase is Done,
        b.phase is Done,
        a.config == (DiffConfig { to_stream: false, single_file: false, ..b.config }),
        b.config.to_stream,
        text::texts(a.report.warnings@) == text::texts(b.report.warnings@),
        a.report.tables@.len() == b.report.tables@.len(),
        forall|i: int|
            0 <= i < a.report.tables@.len() ==> same_counts(
                #[trigger] a.report.tables@[i],
                b.report.tables@[i],
            ),
        ordered_by(a, deps),
        ordered_by(b, deps),
    ensures
        master_lines(a.report, a.insert_places@, a.delete_places@, a.config.include_delete) == master_lines(
            b.report,
            b.insert_places@,
            b.delete_places@,
            b.config.include_delete,
        ),
{
    let s = a.report.tables@;
    let t = b.report.tables@;
    assert forall|i: int| 0 <= i < s.len() implies same_script_names(#[trigger] s[i], t[i]) by {
        assert(same_counts(s[i], t[i]));
        assert(names_scripts(s[i], a.config));
        assert(names_scripts(t[i], b.config));
    }
    assert forall|i: int| 0 <= i < t.len() implies same_script_names(s[i], #[trigger] t[i]) by {
        assert(same_script_names(s[i], t[i]));
    }
    assert(s.map_values(|t: TableDiffReport| comment(t.table_name@)) =~= t.map_values(
        |t: TableDiffReport| comment(t.table_name@),
    )) by {
        assert forall|i: int| 0 <= i < s.len() implies (#[trigger] s[i]).table_name@ == t[i].table_name@ by {}
    }
    assert(report_names(s) =~= report_names(t)) by {
        assert forall|i: int| 0 <= i < s.len() implies (#[trigger] s[i]).table_name@ == t[i].table_name@ by {}
    }
    order_of_scripts_is_unique(a, b, deps);
    lemma_each_table_once(a.insert_places@, s.len());
    lemma_each_table_once(a.delete_places@, s.len());
    assert(warning_lines(a.report.warnings@) == warning_lines(b.report.warnings@)) by {
        let v = a.report.warnings@;
        let w = b.report.warnings@;
        assert(text::texts(v).len() == text::texts(w).len());
        assert(v.map_values(|x: String| comment(x@)) =~= w.map_values(|x: String| comment(x@))) by {
            assert forall|i: int| 0 <= i < v.len() implies comment((#[trigger] v[i])@) == comment(w[i]@) by {
                assert(text::texts(v)[i] == text::texts(w)[i]);
            }
        }
    }
    lemma_same_change_lines(s, t, a.insert_places@);
    assert(delete_lines(s, a.delete_places@) =~= delete_lines(t, a.delete_places@)) by {
        assert forall|k: int| 0 <= k < a.delete_places@.len() implies delete_lines(s, a.delete_places@)[k]
            == delete_lines(t, a.delete_places@)[k] by {
            let p = a.delete_places@[k] as int;
            assert(same_script_names(s[p], t[p]));
        }
    }
    assert(has_changes(s) == has_changes(t)) by {
        if has_changes(s) {
            let i = choose|i: int|
                0 <= i < s.len() && ((#[trigger] s[i]).insert_file is Some || s[i].update_file is Some);
            assert(t[i].insert_file is Some || t[i].update_file is Some);
        }
        if has_changes(t) {
            let i = choose|i: int|
                0 <= i < t.len() && ((#[trigger] t[i]).insert_file is Some || t[i].update_file is Some);
            assert(s[i].insert_file is Some || s[i].update_file is Some);
        }
    }
    assert(has_deletes(s) == has_deletes(t)) by {
        if has_deletes(s) {
            let i = choose|i: int| 0 <= i < s.len() && (#[trigger] s[i]).delete_file is Some;
            assert(t[i].delete_file is Some);
        }
        if has_deletes(t) {
            let i = choose|i: int| 0 <= i < t.len() && (#[trigger] t[i]).delete_file is Some;
            assert(s[i].delete_file is Some);
        }
    }
}

/// Whether two tables are reported with the same name and the same numbers of statements.
pub open spec fn same_counts(a: TableDiffReport, b: TableDiffReport) -> bool {
    a.table_name@ == b.table_name@ && a.inserts == b.inserts && a.updates == b.updates && a.deletes == b.deletes
}

/// Whether a table is reported with the names of its scripts.
pub open spec fn names_scripts(t: TableDiffReport, config: DiffConfig) -> bool {
    reports(t, config, t.table_name@, (DiffStats { inserts: t.inserts, updates: t.updates }), t.deletes)
}

/// Whether two tables have the same name and scripts of the same names.
spec fn same_script_names(a: TableDiffReport, b: TableDiffReport) -> bool {
    &&& a.table_name@ == b.table_name@
    &&& crate::chunk_strategy::owned_text_of(a.insert_file) == crate::chunk_strategy::owned_text_of(b.insert_file)
    &&& crate::chunk_strategy::owned_text_of(a.update_file) == crate::chunk_strategy::owned_text_of(b.update_file)
    &&& crate::chunk_strategy::owned_text_of(a.delete_file) == crate::chunk_strategy::owned_text_of(b.delete_file)
}

proof fn lemma_same_change_lines(s: Seq<TableDiffReport>, t: Seq<TableDiffReport>, places: Seq<usize>)
    requires
        s.len() == t.len(),
        forall|i: int| 0 <= i < s.len() ==> same_script_names(#[trigger] s[i], t[i]),
        places_fit(places, s.len()),
    ensures
        change_lines(s, places) == change_lines(t, places),
    decreases places.len(),
{
    if places.len() > 0 {
        let less = places.drop_last();
        assert forall|k: int| 0 <= k < less.len() implies (#[trigger] less[k]) < s.len() by {
            assert(less[k] == places[k]);
        }
        lemma_same_change_lines(s, t, less);
        let p = places[places.len() - 1] as int;
        assert(same_script_names(s[p], t[p]));
    }
}

/// No name is twice in the order that dependencies put tables in.
proof fn lemma_order_has_none_twice(names: Seq<String>, deps: Seq<FkDependency>)
    ensures
        metadata::insert_order(names, deps).no_duplicates(),
        metadata::insert_order(names, deps).reverse().no_duplicates(),
{
    metadata::every_table_is_sorted(names, deps);
    let order = metadata::insert_order(names, deps);
    assert forall|k: int, l: int| 0 <= k < l < order.len() implies order[k] != order[l] by {
        assert(crate::outside::lowercase_text(order[k]) != crate::outside::lowercase_text(order[l]));
    }
    assert forall|k: int, l: int| 0 <= k < l < order.len() implies order.reverse()[k] != order.reverse()[l] by {
        assert(order[order.len() - 1 - k] != order[order.len() - 1 - l]);
    }
}

/// The names of reported tables.
pub open spec fn report_names(tables: Seq<TableDiffReport>) -> Seq<Seq<char>> {
    tables.map_values(|t: TableDiffReport| t.table_name@)
}

/// Whether the scripts come in the order in which the tables were compared.
pub open spec fn in_report_order(run: DataDiffRun) -> bool {
    &&& as_numbers(run.insert_places@) == Seq::new(run.report.tables@.len(), |i: int| i)
    &&& as_numbers(run.delete_places@) == Seq::new(run.report.tables@.len(), |i: int| i)
}

/// Whether the scripts come in the orders that dependencies put the tables in. The names are
/// those of the reported tables.
pub open spec fn sorted_by(run: DataDiffRun, names: Seq<String>, deps: Seq<FkDependency>) -> bool {
    &&& text::texts(names) == report_names(run.report.tables@)
    &&& as_numbers(run.insert_places@) == ordered_places(
        run.report.tables@,
        metadata::insert_order(names, deps),
    )
    &&& as_numbers(run.delete_places@) == ordered_places(
        run.report.tables@,
        metadata::insert_order(names, deps).reverse(),
    )
}

/// Whether the scripts come in the orders that dependencies put the tables in, and without any in
/// the order in which the tables were compared.
pub open spec fn ordered_by(run: DataDiffRun, deps: Seq<FkDependency>) -> bool {
    if deps.len() == 0 {
        in_report_order(run)
    } else {
        exists|names: Seq<String>| #[trigger] sorted_by(run, names, deps)
    }
}

/// Places that are the same numbers are the same.
proof fn lemma_same_numbers(a: Seq<usize>, b: Seq<usize>)
    requires
        as_numbers(a) == as_numbers(b),
    ensures
        a == b,
{
    assert(as_numbers(a).len() == a.len());
    assert(as_numbers(b).len() == b.len());
    assert forall|k: int| 0 <= k < a.len() implies a[k] == b[k] by {
        assert(as_numbers(a)[k] == a[k]);
        assert(as_numbers(b)[k] == b[k]);
    }
    assert(a =~= b);
}

proof fn lemma_same_named_places(s: Seq<TableDiffReport>, t: Seq<TableDiffReport>, names: Seq<Seq<char>>)
    requires
        report_names(s) == report_names(t),
    ensures
        named_places(s, names) == named_places(t, names),
    decreases names.len(),
{
    if names.len() > 0 {
        lemma_same_named_places(s, t, names.drop_last());
        lemma_same_picked(s, t, names);
    }
}

/// Which of the tables have the last of the names, and which have none of them, depends on their
/// names alone.
proof fn lemma_same_picked(s: Seq<TableDiffReport>, t: Seq<TableDiffReport>, names: Seq<Seq<char>>)
    requires
        report_names(s) == report_names(t),
    ensures
        s.len() == t.len(),
        names.len() > 0 ==> collections::picked(s.len(), has_name(s, names.last())) == collections::picked(
            t.len(),
            has_name(t, names.last()),
        ),
        collections::picked(s.len(), has_other_name(s, names)) == collections::picked(
            t.len(),
            has_other_name(t, names),
        ),
{
    assert(report_names(s).len() == s.len());
    assert(report_names(t).len() == t.len());
    assert forall|i: int| 0 <= i < s.len() implies (#[trigger] s[i]).table_name@ == t[i].table_name@ by {
        assert(report_names(s)[i] == s[i].table_name@);
        assert(report_names(t)[i] == t[i].table_name@);
    }
    if names.len() > 0 {
        collections::lemma_same_picked(s.len(), has_name(s, names.last()), has_name(t, names.last()));
    }
    collections::lemma_same_picked(s.len(), has_other_name(s, names), has_other_name(t, names));
}

/// The orders rest on the names of the tables, in the order in which they were compared, and on
/// the dependencies alone: there is one such order.
pub proof fn order_of_scripts_is_unique(a: DataDiffRun, b: DataDiffRun, deps: Seq<FkDependency>)
    requires
        report_names(a.report.tables@) == report_names(b.report.tables@),
        ordered_by(a, deps),
        ordered_by(b, deps),
    ensures
        a.insert_places@ == b.insert_places@,
        a.delete_places@ == b.delete_places@,
{
    let s = a.report.tables@;
    let t = b.report.tables@;
    assert(report_names(s).len() == s.len());
    assert(report_names(t).len() == t.len());
    if deps.len() > 0 {
        let x = choose|names: Seq<String>| #[trigger] sorted_by(a, names, deps);
        let y = choose|names: Seq<String>| #[trigger] sorted_by(b, names, deps);
        metadata::order_rests_on_texts(x, y, deps);
        let order = metadata::insert_order(x, deps);
        lemma_same_named_places(s, t, order);
        lemma_same_picked(s, t, order);
        lemma_same_named_places(s, t, order.reverse());
        lemma_same_picked(s, t, order.reverse());
    }
    lemma_same_numbers(a.insert_places@, b.insert_places@);
    lemma_same_numbers(a.delete_places@, b.delete_places@);
}

/// An order in which each table has one place has as many places as there are tables.
proof fn lemma_as_many_places(places: Seq<usize>, total: nat)
    requires
        each_table_once(places, total),
    ensures
        places.len() == total,
{
    let numbers = as_numbers(places);
    assert forall|k: int, l: int| 0 <= k < l < numbers.len() implies numbers[k] != numbers[l] by {
        assert(places[k] != places[l]);
    }
    numbers.unique_seq_to_set();
    vstd::set_lib::lemma_int_range(0, total as int);
    assert(numbers.to_set() =~= vstd::set_lib::set_int_range(0, total as int));
}

proof fn lemma_change_lines(tables: Seq<TableDiffReport>, places: Seq<usize>, k: int)
    requires
        0 <= k < places.len(),
    ensures
        ({
            let t = tables[places[k] as int];
            &&& change_lines(tables, places).len() == 2 * places.len()
            &&& change_lines(tables, places)[2 * k] == script_line(t.insert_file, "INSERT"@, t.table_name@)
            &&& change_lines(tables, places)[2 * k + 1] == script_line(t.update_file, "UPDATE"@, t.table_name@)
        }),
    decreases places.len(),
{
    let less = places.drop_last();
    if k < less.len() {
        lemma_change_lines(tables, less, k);
        assert(less[k] == places[k]);
    } else if less.len() > 0 {
        lemma_change_lines(tables, less, 0);
    } else {
        assert(change_lines(tables, less) =~= Seq::<Seq<char>>::empty());
    }
}

/// The master script of a finished comparison runs all scripts of all tables, each once: for each
/// table there is one pair of lines for its INSERT and its UPDATE script, and one line for its
/// DELETE script, and there are no others.
pub proof fn every_script_is_run_once(run: DataDiffRun, i: int)
    requires
        run.valid(),
        run.phase is Done,
        0 <= i < run.report.tables@.len(),
    ensures
        ({
            let t = run.report.tables@[i];
            let n = run.report.tables@.len();
            let changes = change_lines(run.report.tables@, run.insert_places@);
            let deletes = delete_lines(run.report.tables@, run.delete_places@);
            let k = as_numbers(run.insert_places@).index_of(i);
            let m = as_numbers(run.delete_places@).index_of(i);
            &&& changes.len() == 2 * n
            &&& 0 <= k < n
            &&& changes[2 * k] == script_line(t.insert_file, "INSERT"@, t.table_name@)
            &&& changes[2 * k + 1] == script_line(t.update_file, "UPDATE"@, t.table_name@)
            &&& forall|l: int| 0 <= l < n && #[trigger] run.insert_places@[l] == i ==> l == k
            &&& deletes.len() == n
            &&& 0 <= m < n
            &&& deletes[m] == script_line(t.delete_file, "DELETE"@, t.table_name@)
            &&& forall|l: int| 0 <= l < n && #[trigger] run.delete_places@[l] == i ==> l == m
        }),
{
    let n = run.report.tables@.len();
    lemma_as_many_places(run.insert_places@, n);
    lemma_as_many_places(run.delete_places@, n);
    assert(as_numbers(run.insert_places@).contains(i));
    assert(as_numbers(run.delete_places@).contains(i));
    let k = as_numbers(run.insert_places@).index_of(i);
    let m = as_numbers(run.delete_places@).index_of(i);
    assert(run.insert_places@[k] == i);
    assert(run.delete_places@[m] == i);
    lemma_change_lines(run.report.tables@, run.insert_places@, k);
    assert forall|l: int| 0 <= l < n && #[trigger] run.insert_places@[l] == i implies l == k by {}
    assert forall|l: int| 0 <= l < n && #[trigger] run.delete_places@[l] == i implies l == m by {}
}

/// Whether one more table has been reported.
pub open spec fn added_report(before: DataDiffRun, after: DataDiffRun) -> bool {
    &&& after.report.tables@.len() == before.report.tables@.len() + 1
    &&& after.report.tables@.drop_last() == before.report.tables@
}

/// Whether the table whose rows to delete were looked for has been reported, with the counts and
/// scripts that it had, and the next one follows.
pub open spec fn moved_on(before: DataDiffRun, after: DataDiffRun) -> bool {
    &&& added_report(before, after)
    &&& after.report.warnings == before.report.warnings
    &&& after.phase == phase_after_tables(
        before.config,
        before.report.tables@.len() + 1,
        before.pairs@.len(),
    )
    &&& ({
        let last = after.report.tables@.last();
        &&& last.table_name == before.current.table_name
        &&& last.inserts == before.current.inserts
        &&& last.updates == before.current.updates
        &&& last.insert_file == before.current.insert_file
        &&& last.update_file == before.current.update_file
    })
}

/// The pairs whose schemas do not differ.
fn active_pairs(pairs: &[TablePair], results: &TextMap<SchemaComparisonResult>) -> (r: Vec<TablePair>)
    ensures
        r@ == pairs@.filter(is_active(results@)),
{
    let ghost keep = is_active(results@);
    let mut active: Vec<TablePair> = Vec::new();
    proof {
        reveal(Seq::filter);
        assert(active@ =~= pairs@.take(0).filter(keep));
    }
    for i in 0..pairs.len()
        invariant
            keep == is_active(results@),
            active@ == pairs@.take(i as int).filter(keep),
    {
        let pair = &pairs[i];
        proof {
            assert(pairs@.take(i + 1) =~= pairs@.take(i as int).push(*pair));
            pairs@.take(i as int).lemma_filter_push(*pair, keep);
        }
        let (_, table) = config::parse_table_name(pair.reference.as_str());
        let skipped = match results.get(table) {
            Some(result) => matches!(result, SchemaComparisonResult::Mismatch { .. }),
            None => false,
        };
        if !skipped {
            active.push(pair.duplicate());
        }
    }
    assert(pairs@.take(pairs@.len() as int) =~= pairs@);
    active
}

/// A pair is compared exactly where its schemas do not differ, and each table whose schemas
/// differ is warned of.
pub proof fn mismatched_tables_are_skipped_and_warned_of(
    pairs: Seq<TablePair>,
    results: TextMap<SchemaComparisonResult>,
    pair: TablePair,
)
    requires
        pairs.contains(pair),
        results.valid(),
    ensures
        ({
            let table = config::table_part(pair.reference@);
            let differs = results@.contains_key(table) && results@[table] is Mismatch;
            &&& pairs.filter(is_active(results@)).contains(pair) <==> !differs
            &&& differs ==> mismatch_warnings(results).contains(
                mismatch_warning(table, results@[table]->message@),
            )
        }),
{
    let table = config::table_part(pair.reference@);
    let keep = is_active(results@);
    let i = pairs.index_of(pair);
    if keep(pair) {
        pairs.lemma_filter_contains(keep, i);
    } else {
        if pairs.filter(keep).contains(pair) {
            let k = pairs.filter(keep).index_of(pair);
            pairs.lemma_filter_pred(keep, k);
        }
        let order = results.order();
        let bad = is_mismatch(results@);
        assert(bad(table));
        assert(order.contains(table));
        let j = order.index_of(table);
        order.lemma_filter_contains(bad, j);
        let l = order.filter(bad).index_of(table);
        assert(mismatch_warnings(results)[l] == mismatch_warning(table, results@[table]->message@));
    }
}

} // verus!
