use diff_data::collections::{NameSet, TextMap};
use diff_data::config::{
    identity_choice, language_of, parse_alternate_keys, parse_table_name, parse_table_pairs, ProgressEvent,
};
use diff_data::data_diff::{diff_error_to_warning, write_master_script, DataDiffRun, DiffPhase};
use diff_data::metadata::FkDependency;
use diff_data::schema_compare::{compare_all_schemas, compare_table_schema, describe_result, PgTable};
use diff_data::single_file::{write_single_file, TableSql};
use diff_data::{
    DataDiff, DataDiffError, DiffConfig, DiffReport, DiffStats, SchemaComparisonResult, TableDiffReport,
    TablePair,
};

fn names(all: &[&str]) -> Vec<String> {
    all.iter().map(|s| s.to_string()).collect()
}

fn table(columns: &[(&str, &str)]) -> PgTable {
    let mut map = TextMap::new();
    for (name, kind) in columns {
        map.insert(name.to_string(), kind.to_string());
    }
    PgTable { columns: map }
}

fn config(tables: &[&str]) -> DiffConfig {
    let mut config = DiffConfig::new("out/master.sql".to_string(), "out".to_string());
    config.tables = parse_table_pairs(&names(tables));
    config
}

fn dep(table: &str, references: &str) -> FkDependency {
    FkDependency { table: table.to_string(), references_table: references.to_string() }
}

fn stats(inserts: u64, updates: u64) -> DiffStats {
    DiffStats { inserts, updates }
}

fn at_tables(config: DiffConfig) -> DataDiffRun {
    let mut run = DataDiff::new(config).run();
    run.take_analyses(vec![]);
    run
}

#[test]
fn schemas_match_or_differ() {
    let a = table(&[("id", "int4"), ("name", "text")]);
    let b = table(&[("id", "int8"), ("name", "text")]);
    let more = table(&[("id", "int4"), ("name", "text"), ("z", "date"), ("y", "date")]);
    let result = |r: &PgTable, t: &PgTable, e| describe_result(&compare_table_schema(r, t, e));
    assert_eq!(result(&a, &a, false), "Match");
    assert_eq!(result(&a, &more, false), "Target superset (extra: y, z)");
    assert_eq!(result(&more, &a, false), "Mismatch: Reference columns missing in target: y, z");
    assert_eq!(result(&more, &a, true), "Excluded");
    assert_eq!(result(&a, &b, false), "Mismatch: Type mismatches: column 'id': type 'int4' vs 'int8'");
    assert_eq!(result(&a, &b, true), "Excluded");
}

#[test]
fn all_schemas_are_compared() {
    let mut reference = TextMap::new();
    reference.insert("a".to_string(), table(&[("id", "int4")]));
    reference.insert("B".to_string(), table(&[("id", "int4")]));
    reference.insert("c".to_string(), table(&[("id", "int4")]));
    let mut target = TextMap::new();
    target.insert("a".to_string(), table(&[("id", "int4")]));
    target.insert("d".to_string(), table(&[]));
    let results = compare_all_schemas(&reference, &target, &NameSet::from_names(&names(&["b"])));
    assert_eq!(results.len(), 3);
    assert_eq!(describe_result(results.get("a").unwrap()), "Match");
    assert_eq!(describe_result(results.get("B").unwrap()), "Excluded");
    assert_eq!(
        describe_result(results.get("c").unwrap()),
        "Mismatch: Table 'c' not found in target schema"
    );
}

#[test]
fn tables_with_other_schemas_are_skipped_with_a_warning() {
    let mut c = config(&["s.a", "s.b"]);
    c.reference_db_name = Some("r".to_string());
    c.target_db_name = Some("t".to_string());
    c.reference_schema = Some("s".to_string());
    c.target_schema = Some("s".to_string());
    let mut run = DataDiff::new(c).run();
    assert_eq!(run.phase, DiffPhase::Schemas);
    let mut results = TextMap::new();
    results.insert("a".to_string(), SchemaComparisonResult::Mismatch { message: "m".to_string() });
    results.insert("b".to_string(), SchemaComparisonResult::Match);
    let told = run.take_schema_results(&results);
    assert_eq!(told[0], ("a".to_string(), "Mismatch: m".to_string()));
    assert_eq!(told[1], ("b".to_string(), "Match".to_string()));
    assert_eq!(run.pairs.len(), 1);
    assert_eq!(run.pairs[0].reference, "s.b");
    assert_eq!(
        run.report.warnings,
        names(&["Schema mismatch for 'a': m. Add to exclusion list or define a timestamp column."])
    );
    assert_eq!(run.phase, DiffPhase::Analysis);
}

#[test]
fn tables_are_discovered_where_none_are_given() {
    let mut c = config(&[]);
    c.reference_schema = Some("s".to_string());
    let mut run = DataDiff::new(c).run();
    assert_eq!(run.phase, DiffPhase::Discover);
    run.take_tables(&names(&["a", "b"]));
    assert_eq!(run.pairs[1].reference, "s.b");
    assert_eq!(run.pairs[1].target, "s.b");
    let mut c = config(&[]);
    c.reference_schema = Some("s".to_string());
    c.target_schema = Some("z".to_string());
    let mut run = DataDiff::new(c).run();
    run.take_tables(&names(&["a"]));
    assert_eq!((run.pairs[0].reference.as_str(), run.pairs[0].target.as_str()), ("s.a", "z.a"));
}

#[test]
fn each_table_is_compared_as_configured() {
    let mut c = config(&["r.a:t.x"]);
    c.chunk_size = 0;
    c.columns_to_ignore = NameSet::from_names(&names(&["Seen"]));
    c.exclude_ignored_columns = true;
    c.exclude_real_pk = true;
    c.table_where = Some("where id > 1".to_string());
    c.include_identity_columns = Some(true);
    c.alternate_keys.insert("a".to_string(), names(&["code"]));
    let run = at_tables(c);
    let task = run.table_task().unwrap();
    assert_eq!(task.diff.ref_table, "r.a");
    assert_eq!(task.diff.target_table, "t.x");
    assert_eq!(task.diff.chunk_size, 1);
    assert!(task.diff.columns_to_ignore.contains("seen"));
    assert!(task.diff.exclude_columns.contains("seen"));
    assert_eq!(task.diff.alternate_keys, Some(names(&["code"])));
    assert_eq!(task.diff.table_where, Some("id > 1".to_string()));
    assert_eq!(task.diff.include_identity_columns, Some(true));
    assert!(task.diff.exclude_real_pk && task.diff.analysis.is_none());
    assert_eq!((task.table.as_str(), task.table_index, task.total_tables), ("x", 0, 1));
    assert_eq!((task.insert_file.as_str(), task.update_file.as_str()), ("x_$insert.sql", "x_$update.sql"));
}

#[test]
fn every_table_is_reported_in_order() {
    let mut c = config(&["a", "s.b", "c"]);
    c.include_delete = true;
    c.table_where = Some("WHERE id > 1".to_string());
    let mut run = at_tables(c);
    run.take_diff(Ok(stats(2, 0))).unwrap();
    assert_eq!(run.phase, DiffPhase::Delete);
    let sync = run.delete_task();
    assert_eq!((sync.target_table.as_str(), sync.ref_table.as_str(), sync.chunk_size), ("a", "a", 25));
    assert_eq!(sync.table_where, Some("id > 1".to_string()));
    assert_eq!(run.delete_file(), "a_$delete.sql");
    run.take_delete(Ok(3)).unwrap();
    run.take_diff(Err(DataDiffError::NoPrimaryKey("s.b".to_string()))).unwrap();
    run.take_diff(Ok(stats(0, 1))).unwrap();
    run.take_delete(Err(DataDiffError::NoPrimaryKey("c".to_string()))).unwrap();
    assert_eq!(run.phase, DiffPhase::Order);
    run.take_dependencies(&[]);
    assert_eq!(run.phase, DiffPhase::Done);
    let (report, script) = run.finish();
    let told: Vec<_> = report
        .tables
        .iter()
        .map(|t| (t.table_name.as_str(), t.inserts, t.updates, t.deletes))
        .collect();
    assert_eq!(told, vec![("a", 2, 0, 3), ("b", 0, 0, 0), ("c", 0, 1, 0)]);
    assert_eq!(report.tables[0].insert_file, Some("a_$insert.sql".to_string()));
    assert_eq!(report.tables[0].update_file, None);
    assert_eq!(report.tables[0].delete_file, Some("a_$delete.sql".to_string()));
    assert_eq!(report.warnings, names(&["No primary key for table: s.b"]));
    assert_eq!(report.master_script, Some("out/master.sql".to_string()));
    assert!(script.unwrap().contains("\\i 'c_$update.sql'\n"));
}

#[test]
fn fatal_errors_end_the_comparison() {
    let mut run = at_tables(config(&["a"]));
    match run.take_diff(Err(DataDiffError::Io("disk".to_string()))) {
        Err(e) => assert_eq!(e.message(), "I/O error: disk"),
        _ => panic!("expected an error"),
    }
    let mut c = config(&["a"]);
    c.include_delete = true;
    let mut run = at_tables(c);
    run.take_diff(Ok(stats(0, 0))).unwrap();
    assert!(matches!(
        run.take_delete(Err(DataDiffError::TableNotFound("a".to_string()))),
        Err(DataDiffError::TableNotFound(_))
    ));
}

#[test]
fn a_cancelled_comparison_stops_at_the_next_table() {
    let mut diff = DataDiff::new(config(&["a"]));
    diff.cancel();
    let mut run = diff.run();
    run.take_analyses(vec![]);
    assert!(matches!(run.table_task(), Err(DataDiffError::Cancelled)));
    let mut run = at_tables(config(&["a"]));
    run.take_diff(Ok(stats(0, 0))).unwrap();
    run.take_dependencies(&[]);
    run.cancel();
    let (report, script) = run.finish();
    assert_eq!((report.master_script, script), (None, None));
}

#[test]
fn a_stream_gets_the_master_script_that_files_get() {
    let finished = |to_stream: bool| {
        let mut c = config(&["s.items", "s.orders"]);
        c.include_delete = true;
        c.to_stream = to_stream;
        let mut run = at_tables(c);
        run.take_diff(Ok(stats(1, 1))).unwrap();
        run.take_delete(Ok(0)).unwrap();
        run.take_diff(Ok(stats(2, 0))).unwrap();
        run.take_delete(Ok(3)).unwrap();
        assert_eq!(run.phase, DiffPhase::Order);
        run.take_dependencies(&[dep("items", "orders")]);
        run.finish()
    };
    let (files, file_script) = finished(false);
    let (stream, stream_script) = finished(true);
    assert!(file_script.as_ref().unwrap().contains("\\i 'items_$insert.sql'\n"));
    assert_eq!(stream_script, file_script);
    assert_eq!(files.tables[0].insert_file, Some("items_$insert.sql".to_string()));
    assert_eq!(files.master_script, Some("out/master.sql".to_string()));
    assert_eq!(stream.tables[0].insert_file, None);
    assert_eq!(stream.tables[0].update_file, None);
    assert_eq!(stream.tables[1].delete_file, None);
    assert_eq!((stream.tables[1].inserts, stream.tables[1].deletes), (2, 3));
    assert_eq!(stream.master_script, None);
}

#[test]
fn a_single_file_follows_the_foreign_keys() {
    let mut c = config(&["items", "orders"]);
    c.single_file = true;
    c.include_delete = true;
    let mut run = at_tables(c);
    for _ in 0..2 {
        run.take_diff(Ok(stats(1, 1))).unwrap();
        run.take_delete(Ok(1)).unwrap();
    }
    assert_eq!(run.phase, DiffPhase::Order);
    run.take_dependencies(&[dep("items", "orders")]);
    let sql = |t: &str| TableSql {
        inserts: format!("insert {}\n", t),
        updates: format!("update {}\n", t),
        deletes: format!("delete {}\n", t),
    };
    let all = vec![sql("items"), sql("orders")];
    let expected = "insert orders\nupdate orders\ninsert items\nupdate items\ndelete items\ndelete orders\n";
    assert_eq!(run.single_file_text(&all), expected);
    assert_eq!(write_single_file(&all, &[0, 1], &[1]).lines().last(), Some("delete orders"));
    let (report, script) = run.finish();
    assert_eq!(report.tables[0].insert_file, None);
    assert_eq!((report.master_script, script), (Some("out/master.sql".to_string()), None));
}

#[test]
fn scripts_are_ordered_unless_that_is_switched_off() {
    for (single_file, to_stream) in [(false, false), (true, false), (false, true)] {
        for check in [true, false] {
            let mut c = config(&["b", "a"]);
            c.single_file = single_file;
            c.to_stream = to_stream;
            c.check_dependencies = check;
            let mut run = at_tables(c);
            run.take_diff(Ok(stats(0, 0))).unwrap();
            run.take_diff(Err(DataDiffError::TableNotFound("a".to_string()))).unwrap();
            if check {
                assert_eq!(run.phase, DiffPhase::Order);
                run.take_dependencies(&[dep("b", "a")]);
                assert_eq!((&run.insert_places, &run.delete_places), (&vec![1, 0], &vec![0, 1]));
            } else {
                assert_eq!((&run.insert_places, &run.delete_places), (&vec![0, 1], &vec![0, 1]));
            }
            assert_eq!(run.phase, DiffPhase::Done);
        }
    }
    let mut c = config(&[]);
    c.check_dependencies = false;
    let run = at_tables(c);
    assert_eq!((run.phase, run.insert_places, run.delete_places), (DiffPhase::Done, vec![], vec![]));
}

#[test]
fn the_order_does_not_rest_on_who_holds_the_names() {
    let order = |tables: &[&str]| {
        let mut run = at_tables(config(tables));
        for _ in tables {
            run.take_diff(Ok(stats(0, 0))).unwrap();
        }
        run.take_dependencies(&[dep("items", "orders")]);
        (run.insert_places, run.delete_places)
    };
    assert_eq!(order(&["s.items", "s.orders"]), order(&["items", "orders"]));
}

#[test]
fn the_master_script_runs_every_script_once() {
    let mut c = config(&["items", "other", "orders"]);
    c.include_delete = true;
    let mut run = at_tables(c);
    for _ in 0..3 {
        run.take_diff(Ok(stats(1, 1))).unwrap();
        run.take_delete(Ok(1)).unwrap();
    }
    run.take_dependencies(&[dep("items", "orders"), dep("orders", "unknown")]);
    let script = run.finish().1.unwrap();
    for table in ["items", "other", "orders"] {
        for ending in ["insert", "update", "delete"] {
            let line = format!("\\i '{}_${}.sql'", table, ending);
            assert_eq!(script.lines().filter(|l| *l == line).count(), 1);
        }
    }
}

#[test]
fn foreign_keys_are_those_of_the_target_schemas() {
    let run = at_tables(config(&["r.a:t.a", "r.b:t.b", "c", "r.d:z.d", "e"]));
    let schemas = run.dependency_schemas();
    assert_eq!(schemas, vec![Some("t".to_string()), None, Some("z".to_string())]);
    assert!(at_tables(config(&[])).dependency_schemas().is_empty());
}

#[test]
fn scripts_follow_the_foreign_keys() {
    let mut c = config(&["s.items", "s.users", "s.orders"]);
    c.reference_schema = Some("s".to_string());
    c.include_delete = true;
    let mut run = at_tables(c);
    for _ in 0..3 {
        run.take_diff(Ok(stats(1, 0))).unwrap();
        run.take_delete(Ok(1)).unwrap();
    }
    assert_eq!(run.phase, DiffPhase::Order);
    run.take_dependencies(&[dep("orders", "users"), dep("items", "orders")]);
    assert_eq!(run.insert_places, vec![1, 2, 0]);
    assert_eq!(run.delete_places, vec![0, 2, 1]);
    let script = run.finish().1.unwrap();
    let place = |s: &str| script.find(s).unwrap();
    assert!(place("users_$insert") < place("orders_$insert"));
    assert!(place("orders_$insert") < place("items_$insert"));
    assert!(place("items_$delete") < place("orders_$delete"));
    assert!(place("orders_$delete") < place("users_$delete"));
}

#[test]
fn the_order_stays_without_foreign_keys() {
    let mut c = config(&["s.b", "s.a"]);
    c.reference_schema = Some("s".to_string());
    let mut run = at_tables(c);
    run.take_diff(Ok(stats(0, 0))).unwrap();
    run.take_diff(Ok(stats(0, 0))).unwrap();
    run.take_dependencies(&[]);
    assert_eq!((run.insert_places, run.delete_places), (vec![0, 1], vec![0, 1]));
}

#[test]
fn the_master_script() {
    let entry = |name: &str, insert: Option<&str>, delete: Option<&str>| TableDiffReport {
        table_name: name.to_string(),
        inserts: 0,
        updates: 0,
        deletes: 0,
        insert_file: insert.map(|s| s.to_string()),
        update_file: None,
        delete_file: delete.map(|s| s.to_string()),
    };
    let mut report = DiffReport {
        tables: vec![entry("a", Some("a_$insert.sql"), None), entry("b", None, Some("b_$delete.sql"))],
        warnings: names(&["careful"]),
        master_script: None,
    };
    let expected = "\
-- ----------------------------------------------------------------
-- Data migration script
-- ----------------------------------------------------------------

-- Tables included:
-- a
-- b

-- Warnings:
-- careful

-- ----------------------
-- UPDATE/INSERT scripts
-- ----------------------
\\i 'a_$insert.sql'
-- No UPDATEs for a necessary
-- No INSERTs for b necessary
-- No UPDATEs for b necessary

COMMIT;

-- ---------------
-- DELETE scripts
-- ---------------
-- No DELETEs for a necessary
\\i 'b_$delete.sql'

COMMIT;
";
    assert_eq!(write_master_script(&report, &[0, 1], &[0, 1], true), expected);
    report.warnings.clear();
    report.tables[0].insert_file = None;
    let bare = "\
-- ----------------------------------------------------------------
-- Data migration script
-- ----------------------------------------------------------------

-- Tables included:
-- a
-- b

-- ----------------------
-- UPDATE/INSERT scripts
-- ----------------------
-- No INSERTs for a necessary
-- No UPDATEs for a necessary
-- No INSERTs for b necessary
-- No UPDATEs for b necessary
";
    assert_eq!(write_master_script(&report, &[0, 1], &[0, 1], false), bare);
}

#[test]
fn errors_that_become_warnings() {
    let warning = |e: DataDiffError| diff_error_to_warning(&e);
    assert_eq!(
        warning(DataDiffError::TableNotFound("t".to_string())),
        Some("Table not found: t".to_string())
    );
    assert_eq!(
        warning(DataDiffError::ColumnMismatch { ref_table: "a".to_string(), target_table: "b".to_string() }),
        Some("Column mismatch between a and b".to_string())
    );
    assert_eq!(warning(DataDiffError::Cancelled), None);
}

#[test]
fn error_messages() {
    let m = "m".to_string();
    assert_eq!(DataDiffError::Postgres(m.clone()).message(), "PostgreSQL error: m");
    assert_eq!(DataDiffError::Pool(m.clone()).message(), "Connection pool error: m");
    assert_eq!(DataDiffError::SchemaMismatch(m.clone()).message(), "Schema mismatch: m");
    assert_eq!(DataDiffError::Cancelled.message(), "Operation cancelled");
    assert_eq!(DataDiffError::Config(m.clone()).message(), "Configuration error: m");
    assert_eq!(DataDiffError::Checksum(m.clone()).message(), "Checksum error: m");
    assert_eq!(DataDiffError::Yaml(m).message(), "YAML error: m");
}

#[test]
fn table_names_and_pairs() {
    assert_eq!(parse_table_name("a.b.c"), (Some("a"), "b.c"));
    assert_eq!(parse_table_name("b"), (None, "b"));
    assert_eq!(parse_table_name(".b"), (Some(""), "b"));
    let pairs: Vec<TablePair> = parse_table_pairs(&names(&["r:t:u", "x"]));
    assert_eq!((pairs[0].reference.as_str(), pairs[0].target.as_str()), ("r", "t:u"));
    assert_eq!((pairs[1].reference.as_str(), pairs[1].target.as_str()), ("x", "x"));
}

#[test]
fn alternate_keys_are_parsed() {
    let keys = parse_alternate_keys(&names(&["t: a , b", "u:c", "t:d"])).unwrap();
    assert_eq!(keys.get("t"), Some(&names(&["d"])));
    assert_eq!(keys.get("u"), Some(&names(&["c"])));
    let keys = parse_alternate_keys(&names(&["t: a , b"])).unwrap();
    assert_eq!(keys.get("t"), Some(&names(&["a", "b"])));
    assert_eq!(parse_alternate_keys(&names(&["t:a", "bad", "worse"])).err(), Some("bad".to_string()));
}

#[test]
fn alternate_keys_go_by_the_target_name_first() {
    let mut c = config(&[]);
    c.alternate_keys.insert("t".to_string(), names(&["a"]));
    c.alternate_keys.insert("r".to_string(), names(&["b"]));
    assert_eq!(c.alternate_keys_for("t", "r"), Some(names(&["a"])));
    assert_eq!(c.alternate_keys_for("x", "r"), Some(names(&["b"])));
    assert_eq!(c.alternate_keys_for("x", "y"), None);
}

#[test]
fn defaults_and_flags() {
    let c = config(&[]);
    assert_eq!(c.chunk_size, 25);
    assert!(c.check_dependencies && c.show_progress && !c.force && !c.include_delete);
    assert_eq!(f64::from_bits(c.max_etc_seconds.bits), 10800.0);
    assert_eq!(identity_choice(true, false), Some(true));
    assert_eq!(identity_choice(false, true), Some(false));
    assert_eq!(identity_choice(false, false), None);
    assert_eq!(language_of("en_US.UTF-8"), "en");
    assert_eq!(language_of("de"), "de");
    let event = |n| ProgressEvent::RowProcessed { table: "t".to_string(), row_number: n };
    assert!(event(2000).is_shown() && !event(2001).is_shown());
    assert!(ProgressEvent::SortingDependencies.is_shown());
}
