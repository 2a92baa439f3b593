use diff_data::collections::NameSet;
use diff_data::delete_sync::{DeleteAction, TableDeleteSync};
use diff_data::instant::{CalendarDate, TimeOfDay, Timestamp};
use diff_data::table_diff::{
    find_modified_columns, find_row_by_pk, row_pk_key, values_key, DiffAction, HashedKey, TableDataDiff,
    TableDiffRun,
};
use diff_data::types::{
    extract_row, extract_row_value, ColumnInfo, DayCount, Field, JsonText, PgType, Real32, Real64, Row,
    RowValue, TableAnalysis, TableDiffStatus,
};
use diff_data::{ChunkStrategy, DataDiffError, DiffStats};

const HEADER: &str = "-- ----------------------------------------------------------------\n-- Data diff for table: t\n-- ----------------------------------------------------------------\n";
const DELETE_HEADER: &str = "-- ----------------------------------------------------------------\n-- DELETE statements for table: t\n-- ----------------------------------------------------------------\n";

fn column(name: &str, pg_type: PgType, is_pk: bool) -> ColumnInfo {
    ColumnInfo { name: name.to_string(), pg_type, is_pk, is_identity: false, ordinal: 0 }
}

fn columns() -> Vec<ColumnInfo> {
    vec![column("id", PgType::Int4, true), column("name", PgType::Text, false)]
}

fn row(id: i32, name: &str) -> Row {
    vec![RowValue::I32(id), RowValue::Text(name.to_string())]
}

fn names(all: &[&str]) -> Vec<String> {
    all.iter().map(|s| s.to_string()).collect()
}

fn set(all: &[&str]) -> NameSet {
    NameSet::from_names(&names(all))
}

fn diff() -> TableDataDiff {
    TableDataDiff::new("r.t".to_string(), "s.t".to_string())
}

fn start(diff: TableDataDiff) -> TableDiffRun {
    let setup = diff.setup(Some(columns()), Some(columns())).unwrap();
    diff.execute(setup, &[]).unwrap()
}

fn by_time() -> TableAnalysis {
    TableAnalysis {
        ref_table: "r.t".to_string(),
        target_table: "s.t".to_string(),
        row_count: 2_000_000,
        timestamp_column: Some("ts".to_string()),
        strategy: ChunkStrategy::Md5TimestampChunk {
            timestamp_column: "ts".to_string(),
            min_ts: Timestamp::new(0, 0).unwrap(),
            max_ts: Timestamp::new(100, 0).unwrap(),
            chunk_days: DayCount { bits: 0, one_decimal: "0.0".to_string() },
        },
        estimated_seconds: Real64 { bits: 0, display: "0".to_string(), debug: "0.0".to_string() },
    }
}

fn fetch_target(run: &TableDiffRun) -> String {
    match run.action().unwrap() {
        DiffAction::FetchTarget { sql } => sql,
        other => panic!("expected a lookup, got {:?}", other),
    }
}

fn finished(run: &TableDiffRun) -> DiffStats {
    match run.action().unwrap() {
        DiffAction::Finish(stats) => stats,
        other => panic!("expected the end, got {:?}", other),
    }
}

#[test]
fn rows_are_inserted_updated_or_left() {
    let mut run = start(diff());
    match run.action().unwrap() {
        DiffAction::FetchRows { sql } => assert_eq!(sql, "SELECT id, name FROM r.t"),
        other => panic!("expected rows, got {:?}", other),
    }
    run.take_rows(vec![row(1, "a"), row(2, "b"), row(3, "c")]);
    assert_eq!(
        fetch_target(&run),
        "SELECT id, name FROM s.t WHERE (id = 1) OR (id = 2) OR (id = 3)"
    );
    let out = run.take_target_rows(vec![row(3, "x"), row(1, "a")]).unwrap();
    assert_eq!(out.inserts, format!("{}INSERT INTO s.t (id, name) VALUES (2, 'b');\n\n", HEADER));
    assert_eq!(out.updates, format!("{}UPDATE s.t SET name = 'c' WHERE id = 3;\n\n", HEADER));
    assert_eq!(finished(&run), DiffStats { inserts: 1, updates: 1 });
}

#[test]
fn the_batch_size_does_not_change_what_is_written() {
    let rows = vec![row(1, "a"), row(2, "b"), row(3, "c")];
    let mut whole = start(diff());
    whole.take_rows(rows.clone());
    let all = whole.take_target_rows(vec![]).unwrap().inserts;

    let mut d = diff();
    d.set_chunk_size(2);
    let mut run = start(d);
    run.take_rows(rows);
    assert_eq!(fetch_target(&run), "SELECT id, name FROM s.t WHERE (id = 1) OR (id = 2)");
    let mut parts = run.take_target_rows(vec![]).unwrap().inserts;
    assert_eq!(fetch_target(&run), "SELECT id, name FROM s.t WHERE (id = 3)");
    parts.push_str(&run.take_target_rows(vec![]).unwrap().inserts);
    assert_eq!(parts, all);
    assert_eq!(finished(&run), DiffStats { inserts: 3, updates: 0 });
}

#[test]
fn batches_of_any_size_write_the_same() {
    let rows: Vec<Row> = (1..8).map(|i| row(i, "new")).collect();
    let target = |i: &i32| if i % 3 == 0 { None } else { Some(row(*i, if i % 2 == 0 { "new" } else { "old" })) };
    let written = |size: usize, reversed: bool| {
        let mut d = diff();
        d.set_chunk_size(size);
        let mut run = start(d);
        run.take_rows(rows.clone());
        let (mut inserts, mut updates, mut at) = (String::new(), String::new(), 1i32);
        while let DiffAction::FetchTarget { .. } = run.action().unwrap() {
            let end = (at + size as i32).min(8);
            let mut found: Vec<Row> = (at..end).filter_map(|i| target(&i)).collect();
            if reversed {
                found.reverse();
            }
            let out = run.take_target_rows(found).unwrap();
            inserts.push_str(&out.inserts);
            updates.push_str(&out.updates);
            at = end;
        }
        (inserts, updates, finished(&run))
    };
    let whole = written(25, false);
    assert_eq!(whole.2, DiffStats { inserts: 2, updates: 3 });
    for size in 1..8 {
        assert_eq!(written(size, size % 2 == 0), whole);
    }
}

#[test]
fn identical_tables_need_nothing() {
    let mut run = start(diff());
    run.take_rows(vec![row(1, "a"), row(2, "b")]);
    let out = run.take_target_rows(vec![row(1, "a"), row(2, "b")]).unwrap();
    assert_eq!((out.inserts.as_str(), out.updates.as_str()), ("", ""));
    assert_eq!(finished(&run), DiffStats { inserts: 0, updates: 0 });
}

#[test]
fn a_second_comparison_finds_nothing() {
    let reference = vec![row(1, "a"), row(2, "b"), row(3, "c")];
    let mut target = vec![row(3, "x"), row(1, "a"), row(9, "z")];
    let mut first = start(diff());
    first.take_rows(reference.clone());
    first.take_target_rows(target.clone()).unwrap();
    assert_eq!(finished(&first), DiffStats { inserts: 1, updates: 1 });
    // What the two statements do.
    target[0] = row(3, "c");
    target.push(row(2, "b"));
    let mut second = start(diff());
    second.take_rows(reference);
    let out = second.take_target_rows(target).unwrap();
    assert_eq!((out.inserts.as_str(), out.updates.as_str()), ("", ""));
}

#[test]
fn an_empty_reference_needs_nothing() {
    let mut run = start(diff());
    run.take_rows(vec![]);
    assert_eq!(finished(&run), DiffStats { inserts: 0, updates: 0 });
}

#[test]
fn a_cancelled_diff_checks_no_rows() {
    let mut d = diff();
    d.cancel();
    let mut run = start(d);
    run.take_rows(vec![row(1, "a")]);
    assert!(matches!(run.action(), Err(DataDiffError::Cancelled)));
    assert!(matches!(run.take_target_rows(vec![]), Err(DataDiffError::Cancelled)));
}

#[test]
fn rows_are_found_by_their_own_key_whatever_the_target_columns() {
    let target = vec![
        column("extra", PgType::Text, false),
        column("NAME", PgType::Text, false),
        column("id", PgType::Int4, true),
    ];
    let d = diff();
    let setup = d.setup(Some(columns()), Some(target)).unwrap();
    let mut run = d.execute(setup, &[]).unwrap();
    run.take_rows(vec![row(7, "a")]);
    assert_eq!(fetch_target(&run), "SELECT extra, \"NAME\", id FROM s.t WHERE (id = 7)");
    let found = vec![RowValue::Null, RowValue::Text("b".to_string()), RowValue::I32(7)];
    let out = run.take_target_rows(vec![found]).unwrap();
    assert_eq!(out.updates, format!("{}UPDATE s.t SET name = 'a' WHERE id = 7;\n\n", HEADER));
}

#[test]
fn ignored_columns_do_not_count() {
    let mut d = diff();
    d.set_columns_to_ignore(&set(&["NAME"]));
    let mut run = start(d);
    run.take_rows(vec![row(1, "a")]);
    assert_eq!(run.take_target_rows(vec![row(1, "z")]).unwrap().updates, "");
    assert_eq!(
        find_modified_columns(&row(1, "a"), &row(2, "b"), &columns(), &columns(), &set(&[])),
        vec![0, 1]
    );
    let short = vec![RowValue::I32(1)];
    assert_eq!(
        find_modified_columns(&short, &vec![RowValue::I32(2)], &columns(), &columns(), &set(&["name"])),
        vec![0]
    );
}

#[test]
fn where_conditions_lose_their_keyword() {
    for condition in ["  where   id > 1 ", "WHERE id > 1", "id > 1"] {
        let mut d = diff();
        d.set_table_where(Some(condition.to_string()));
        match start(d).action().unwrap() {
            DiffAction::FetchRows { sql } => assert_eq!(sql, "SELECT id, name FROM r.t WHERE id > 1"),
            other => panic!("expected rows, got {:?}", other),
        }
    }
    let mut d = diff();
    d.set_table_where(Some("éé = 1".to_string()));
    assert_eq!(d.table_where, Some("éé = 1".to_string()));
}

#[test]
fn tables_that_cannot_be_compared() {
    let d = diff();
    let status = |r, t| d.setup(r, t).err().unwrap();
    assert_eq!(status(None, Some(columns())), TableDiffStatus::ReferenceNotFound);
    assert_eq!(status(None, None), TableDiffStatus::ReferenceNotFound);
    assert_eq!(status(Some(columns()), None), TableDiffStatus::TargetNotFound);
    assert_eq!(
        status(Some(columns()), Some(columns()[..1].to_vec())),
        TableDiffStatus::ColumnMismatch
    );
    let keyless = vec![column("id", PgType::Int4, false)];
    assert_eq!(status(Some(keyless.clone()), Some(keyless)), TableDiffStatus::NoPrimaryKey);

    let message = |s| d.status_error(s).unwrap().message();
    assert_eq!(message(TableDiffStatus::ReferenceNotFound), "Table not found: r.t");
    assert_eq!(message(TableDiffStatus::TargetNotFound), "Table not found: s.t");
    assert_eq!(message(TableDiffStatus::NoPrimaryKey), "No primary key found for table r.t");
    assert_eq!(message(TableDiffStatus::ColumnMismatch), "Column mismatch between r.t and s.t");
    assert!(d.status_error(TableDiffStatus::Okay).is_none());
}

#[test]
fn columns_that_inserts_leave_out() {
    let mut cols = columns();
    cols[0].is_identity = true;
    let mut d = diff();
    assert!(d.build_exclude_set(&cols, &names(&["id"])).contains("id"));
    d.set_include_identity_columns(Some(false));
    assert!(d.build_exclude_set(&cols, &[]).contains("id"));
    d.set_include_identity_columns(Some(true));
    assert!(!d.build_exclude_set(&cols, &names(&["id"])).contains("id"));
    d.set_exclude_real_pk(true);
    assert!(!d.build_exclude_set(&cols, &names(&["ID"])).contains("id"));
    d.set_alternate_keys(Some(names(&["name"])));
    assert!(d.build_exclude_set(&cols, &names(&["ID"])).contains("id"));
    d.set_exclude_columns(&set(&["Name"]));
    assert!(d.build_exclude_set(&cols, &[]).contains("name"));
}

#[test]
fn identity_columns_that_are_always_left_out_are_not_updated() {
    let mut cols = columns();
    cols[1].is_identity = true;
    for (choice, ignored, updates) in [
        (None, false, format!("{}UPDATE s.t SET name = 'a' WHERE id = 1;\n\n", HEADER)),
        (Some(true), false, format!("{}UPDATE s.t SET name = 'a' WHERE id = 1;\n\n", HEADER)),
        (Some(false), true, String::new()),
    ] {
        let mut d = diff();
        d.set_include_identity_columns(choice);
        assert_eq!(d.build_ignore_set(&cols).contains("name"), ignored);
        let setup = d.setup(Some(cols.clone()), Some(cols.clone())).unwrap();
        let mut run = d.execute(setup, &[]).unwrap();
        run.take_rows(vec![row(1, "a")]);
        assert_eq!(run.take_target_rows(vec![row(1, "z")]).unwrap().updates, updates);
    }
}

#[test]
fn chunks_follow_the_range_of_the_analysis() {
    let mut d = diff();
    d.set_analysis(Some(by_time()));
    let setup = d.setup(Some(columns()), Some(columns())).unwrap();
    let run = d.execute(setup, &[0, 30, 60]).unwrap();
    let found: Vec<_> = run.bounds.iter().map(|b| (b.start.seconds(), b.end.seconds())).collect();
    assert_eq!(found, vec![(0, 30), (30, 60), (60, 101)]);
    let mut d = diff();
    d.set_analysis(Some(by_time()));
    let setup = d.setup(Some(columns()), Some(columns())).unwrap();
    assert!(d.execute(setup, &[0, i64::MAX]).is_none());
    let d = diff();
    let setup = d.setup(Some(columns()), Some(columns())).unwrap();
    let run = d.execute(setup, &[0, i64::MAX]).unwrap();
    assert!(run.bounds.is_empty());
}

#[test]
fn only_rows_with_other_hashes_are_checked() {
    let mut d = diff();
    d.set_analysis(Some(by_time()));
    let setup = d.setup(Some(columns()), Some(columns())).unwrap();
    let mut run = d.execute(setup, &[0, 50]).unwrap();
    let hashed = |id: i32, md5: &str| HashedKey { md5: md5.to_string(), key: vec![RowValue::I32(id)] };

    match run.action().unwrap() {
        DiffAction::FetchHashes { ref_sql, target_sql, bounds, chunk_index, total_chunks } => {
            assert_eq!(
                ref_sql,
                "SELECT md5(ROW(id, name)::text), id FROM r.t WHERE ts >= $1 AND ts < $2 ORDER BY id"
            );
            assert_eq!(
                target_sql,
                "SELECT md5(ROW(id, name)::text), id FROM s.t WHERE ts >= $1 AND ts < $2 ORDER BY id"
            );
            assert_eq!((bounds.start.seconds(), bounds.end.seconds()), (0, 50));
            assert_eq!((chunk_index, total_chunks), (0, 2));
        }
        other => panic!("expected hashes, got {:?}", other),
    }
    run.take_hashes(vec![hashed(1, "a"), hashed(2, "b")], vec![hashed(1, "a"), hashed(2, "b"), hashed(9, "z")]);
    match run.action().unwrap() {
        DiffAction::FetchHashes { chunk_index, .. } => assert_eq!(chunk_index, 1),
        other => panic!("expected hashes, got {:?}", other),
    }
    run.take_hashes(
        vec![hashed(3, "a"), hashed(4, "b"), hashed(5, "c")],
        vec![hashed(3, "a"), hashed(4, "x")],
    );
    match run.action().unwrap() {
        DiffAction::FetchChunkRows { sql, bounds } => {
            assert_eq!(sql, "SELECT id, name FROM r.t WHERE ts >= $1 AND ts < $2 ORDER BY id");
            assert_eq!(bounds.end.seconds(), 101);
        }
        other => panic!("expected rows, got {:?}", other),
    }
    run.take_rows(vec![row(3, "a"), row(4, "b"), row(5, "c")]);
    assert_eq!(fetch_target(&run), "SELECT id, name FROM s.t WHERE (id = 4) OR (id = 5)");
    let out = run.take_target_rows(vec![row(4, "x")]).unwrap();
    assert_eq!(out.inserts, format!("{}INSERT INTO s.t (id, name) VALUES (5, 'c');\n\n", HEADER));
    assert_eq!(out.updates, format!("{}UPDATE s.t SET name = 'b' WHERE id = 4;\n\n", HEADER));
    assert_eq!(finished(&run), DiffStats { inserts: 1, updates: 1 });
}

#[test]
fn keys_as_texts() {
    let real32 = Real32 { bits: 1f32.to_bits(), display: "1".to_string(), debug: "1.0".to_string() };
    let real64 = Real64 { bits: 2.5f64.to_bits(), display: "2.5".to_string(), debug: "2.5".to_string() };
    let time = Timestamp::new(1_700_000_000, 5_000_000).unwrap();
    let text = |v: RowValue| values_key(&[v]);
    assert_eq!(text(RowValue::Null), "NULL");
    assert_eq!(text(RowValue::I16(-3)), "-3");
    assert_eq!(text(RowValue::Text("a|b".to_string())), "a\\|b");
    assert_eq!(text(RowValue::Text("a\\b".to_string())), "a\\\\b");
    assert_eq!(text(RowValue::Text("NULL".to_string())), "\\NULL");
    assert_eq!(text(RowValue::Bool(true)), "Bool(true)");
    assert_eq!(text(RowValue::F32(real32)), "F32(1.0)");
    assert_eq!(text(RowValue::F64(real64)), "F64(2.5)");
    assert_eq!(text(RowValue::Bytes(vec![1, 255])), "Bytes([1, 255])");
    assert_eq!(text(RowValue::Timestamp(time)), "Timestamp(2023-11-14T22:13:20.005)");
    assert_eq!(text(RowValue::TimestampTz(time)), "TimestampTz(2023-11-14T22:13:20.005Z)");
    assert_eq!(text(RowValue::Date(CalendarDate::new(1).unwrap())), "Date(0001-01-01)");
    assert_eq!(text(RowValue::Time(TimeOfDay::new(60, 0).unwrap())), "Time(00:01:00)");
    assert_eq!(text(RowValue::Numeric("1\"0".to_string())), "Numeric(\"1\\\\\"0\")");
    assert_eq!(text(RowValue::Uuid(1)), "00000000-0000-0000-0000-000000000001");
    assert_eq!(
        text(RowValue::Json(JsonText::new(" [1, true] ".to_string()).unwrap())),
        "Json(Array [Number(1), Bool(true)])"
    );
    let keys = [column("NAME", PgType::Text, true), column("id", PgType::Int4, true)];
    assert_eq!(row_pk_key(&row(5, "x"), &columns(), &keys), "x|5");
}

#[test]
fn different_keys_have_different_texts() {
    let text = |s: &str| RowValue::Text(s.to_string());
    let key = |a: &str, b: &str| values_key(&[text(a), text(b)]);
    let all = [
        key("a|b", "c"),
        key("a", "b|c"),
        key("a\\|b", "c"),
        key("a\\", "b|c"),
        key("NULL", "c"),
        key("\\NULL", "c"),
        values_key(&[RowValue::Null, text("c")]),
    ];
    for i in 0..all.len() {
        for j in 0..i {
            assert_ne!(all[i], all[j]);
        }
    }
}

#[test]
fn different_values_have_different_texts() {
    let time = |secs, nanos| RowValue::Timestamp(Timestamp::new(secs, nanos).unwrap());
    let date = |days| RowValue::Date(CalendarDate::new(days).unwrap());
    let clock = |secs, nanos| RowValue::Time(TimeOfDay::new(secs, nanos).unwrap());
    let all = [
        RowValue::Bool(true),
        RowValue::Bool(false),
        RowValue::Bytes(vec![1, 12]),
        RowValue::Bytes(vec![11, 2]),
        RowValue::Bytes(vec![]),
        RowValue::Uuid(1),
        RowValue::Uuid(1 << 127),
        time(0, 0),
        time(0, 1_000),
        time(0, 1_000_000),
        time(1, 0),
        date(1),
        date(0),
        date(-366),
        date(3_652_060),
        clock(60, 0),
        clock(1, 0),
        clock(0, 100),
    ];
    for i in 0..all.len() {
        for j in 0..i {
            assert_ne!(values_key(&all[i..i + 1]), values_key(&all[j..j + 1]));
        }
    }
    assert_eq!(values_key(&[RowValue::I16(7)]), values_key(&[RowValue::I64(7)]));
}

#[test]
fn rows_with_bars_in_their_keys_are_not_lost() {
    let keys = || vec![column("a", PgType::Text, true), column("b", PgType::Text, true)];
    let pair = |a: &str, b: &str| vec![RowValue::Text(a.to_string()), RowValue::Text(b.to_string())];
    let hashed = |a: &str, b: &str, md5: &str| HashedKey { md5: md5.to_string(), key: pair(a, b) };
    let mut d = diff();
    d.set_analysis(Some(by_time()));
    let setup = d.setup(Some(keys()), Some(keys())).unwrap();
    let mut run = d.execute(setup, &[0]).unwrap();
    run.take_hashes(
        vec![hashed("a|b", "c", "1"), hashed("a", "b|c", "2")],
        vec![hashed("a", "b|c", "2")],
    );
    run.take_rows(vec![pair("a|b", "c"), pair("a", "b|c")]);
    assert_eq!(fetch_target(&run), "SELECT a, b FROM s.t WHERE (a = 'a|b' AND b = 'c')");
}

#[test]
fn conditions_hold_for_all_that_is_fetched_from_the_reference() {
    let mut d = diff();
    d.set_analysis(Some(by_time()));
    d.set_table_where(Some("where a = 1 OR b = 2".to_string()));
    let setup = d.setup(Some(columns()), Some(columns())).unwrap();
    let mut run = d.execute(setup, &[0]).unwrap();
    match run.action().unwrap() {
        DiffAction::FetchHashes { ref_sql, target_sql, .. } => {
            assert_eq!(
                ref_sql,
                "SELECT md5(ROW(id, name)::text), id FROM r.t \
                 WHERE ts >= $1 AND ts < $2 AND (a = 1 OR b = 2) ORDER BY id"
            );
            assert_eq!(
                target_sql,
                "SELECT md5(ROW(id, name)::text), id FROM s.t WHERE ts >= $1 AND ts < $2 ORDER BY id"
            );
        }
        other => panic!("expected hashes, got {:?}", other),
    }
    run.take_hashes(vec![HashedKey { md5: "a".to_string(), key: vec![RowValue::I32(1)] }], vec![]);
    match run.action().unwrap() {
        DiffAction::FetchChunkRows { sql, .. } => assert_eq!(
            sql,
            "SELECT id, name FROM r.t WHERE ts >= $1 AND ts < $2 AND (a = 1 OR b = 2) ORDER BY id"
        ),
        other => panic!("expected rows, got {:?}", other),
    }
    run.take_rows(vec![row(1, "a")]);
    assert_eq!(fetch_target(&run), "SELECT id, name FROM s.t WHERE (id = 1)");

    let mut sync = TableDeleteSync::new("s.t".to_string(), "r.t".to_string());
    sync.set_table_where(Some(" WHERE a = 1".to_string()));
    let setup = sync.setup(&columns(), &columns()).unwrap();
    let mut run = sync.execute(setup);
    match run.action().unwrap() {
        DeleteAction::FetchKeys { sql } => assert_eq!(sql, "SELECT id FROM s.t"),
        other => panic!("expected keys, got {:?}", other),
    }
    run.take_keys(keys(&[1, 2]));
    match run.action().unwrap() {
        DeleteAction::FetchReference { sql } => {
            assert_eq!(sql, "SELECT id FROM r.t WHERE ((id = 1) OR (id = 2)) AND (a = 1)")
        }
        other => panic!("expected a lookup, got {:?}", other),
    }
}

#[test]
fn a_huge_batch_size_is_no_obstacle() {
    let mut d = diff();
    d.set_chunk_size(usize::MAX);
    let mut run = start(d);
    run.take_rows(vec![row(1, "a"), row(2, "b")]);
    run.take_target_rows(vec![row(2, "c")]).unwrap();
    assert_eq!(finished(&run), DiffStats { inserts: 1, updates: 1 });
}

#[test]
fn values_are_equal_as_postgres_reads_them() {
    let real = |v: f64| RowValue::F64(Real64 { bits: v.to_bits(), display: v.to_string(), debug: format!("{:?}", v) });
    assert!(real(0.0).same(&real(-0.0)));
    assert!(!real(f64::NAN).same(&real(f64::NAN)));
    assert!(real(1.5).same(&real(1.5)));
    assert!(!RowValue::I32(1).same(&RowValue::I64(1)));
    let json = |s: &str| RowValue::Json(JsonText::new(s.to_string()).unwrap());
    assert!(json("{\"a\":1,\"b\":2}").same(&json("{ \"b\": 2, \"a\": 1 }")));
    assert!(!json("1").same(&json("2")));
}

#[test]
fn fields_that_cannot_be_read_are_null() {
    assert!(extract_row_value(Field::Null, PgType::Int4).is_null());
    assert!(extract_row_value(Field::Unreadable, PgType::Int4).is_null());
    assert!(extract_row_value(Field::Bool(true), PgType::Int4).is_null());
    assert!(matches!(extract_row_value(Field::I32(4), PgType::Oid), RowValue::I32(4)));
    match extract_row_value(Field::Text("1.5".to_string()), PgType::Numeric) {
        RowValue::Numeric(s) => assert_eq!(s, "1.5"),
        other => panic!("expected a number, got {:?}", other),
    }
    let row = extract_row(vec![Field::I32(1), Field::Text("x".to_string())], &columns());
    assert_eq!(values_key(&row), "1|x");
}

#[test]
fn numbers_of_arbitrary_precision_keep_their_digits() {
    let columns = || vec![column("id", PgType::Int4, true), column("price", PgType::Numeric, false)];
    let d = diff();
    let setup = d.setup(Some(columns()), Some(columns())).unwrap();
    let mut run = d.execute(setup, &[]).unwrap();
    match run.action().unwrap() {
        DiffAction::FetchRows { sql } => {
            assert_eq!(sql, "SELECT id, price::text AS \"price as text\" FROM r.t")
        }
        other => panic!("expected rows, got {:?}", other),
    }
    let priced = |price: &str| extract_row(vec![Field::I32(1), Field::Text(price.to_string())], &columns());
    run.take_rows(vec![priced("0.10000000000000000001")]);
    assert_eq!(fetch_target(&run), "SELECT id, price::text AS \"price as text\" FROM s.t WHERE (id = 1)");
    let out = run.take_target_rows(vec![priced("0.1")]).unwrap();
    assert_eq!(
        out.updates,
        format!("{}UPDATE s.t SET price = 0.10000000000000000001 WHERE id = 1;\n\n", HEADER)
    );
}

#[test]
fn the_first_row_with_the_key_is_found() {
    let rows = vec![row(1, "a"), row(2, "b"), row(2, "c")];
    let keys = [column("ID", PgType::Int4, true)];
    let found = find_row_by_pk(&rows, &columns(), &row(2, "z"), &columns(), &keys).unwrap();
    assert!(found[1].same(&RowValue::Text("b".to_string())));
    assert!(find_row_by_pk(&rows, &columns(), &row(3, "z"), &columns(), &keys).is_none());
}

fn keys(all: &[i32]) -> Vec<Row> {
    all.iter().map(|k| vec![RowValue::I32(*k)]).collect()
}

#[test]
fn rows_that_the_reference_lacks_are_deleted() {
    let mut sync = TableDeleteSync::new("s.t".to_string(), "r.t".to_string());
    assert_eq!(sync.chunk_size, 50);
    sync.set_chunk_size(2);
    let setup = sync.setup(&columns(), &columns()).unwrap();
    let mut run = sync.execute(setup);
    match run.action().unwrap() {
        DeleteAction::FetchKeys { sql } => assert_eq!(sql, "SELECT id FROM s.t"),
        other => panic!("expected keys, got {:?}", other),
    }
    run.take_keys(keys(&[1, 2, 3, 4, 5]));
    match run.action().unwrap() {
        DeleteAction::FetchReference { sql } => {
            assert_eq!(sql, "SELECT id FROM r.t WHERE (id = 1) OR (id = 2)")
        }
        other => panic!("expected a lookup, got {:?}", other),
    }
    assert_eq!(
        run.take_reference_rows(keys(&[2])).unwrap(),
        format!("{}DELETE FROM s.t WHERE id = 1;\n", DELETE_HEADER)
    );
    assert_eq!(run.take_reference_rows(keys(&[3, 4])).unwrap(), "");
    assert_eq!(run.take_reference_rows(vec![]).unwrap(), "DELETE FROM s.t WHERE id = 5;\n");
    assert!(matches!(run.action(), Ok(DeleteAction::Finish(2))));
}

#[test]
fn batches_of_any_size_delete_the_same() {
    let written = |size: usize| {
        let mut sync = TableDeleteSync::new("s.t".to_string(), "r.t".to_string());
        sync.set_chunk_size(size);
        let setup = sync.setup(&columns(), &columns()).unwrap();
        let mut run = sync.execute(setup);
        run.take_keys(keys(&[1, 2, 3, 4, 5, 6, 7]));
        let (mut sql, mut at) = (String::new(), 1i32);
        loop {
            match run.action().unwrap() {
                DeleteAction::Finish(count) => return (sql, count),
                _ => {
                    let end = (at + size as i32).min(8);
                    let found: Vec<i32> = (at..end).rev().filter(|k| k % 3 == 1).collect();
                    sql.push_str(&run.take_reference_rows(keys(&found)).unwrap());
                    at = end;
                }
            }
        }
    };
    let whole = written(50);
    assert_eq!(whole.1, 4);
    assert!(whole.0.starts_with(DELETE_HEADER));
    for size in 1..8 {
        assert_eq!(written(size), whole);
    }
}

#[test]
fn as_many_rows_as_were_looked_for_hide_no_missing_one() {
    let sync = TableDeleteSync::new("s.t".to_string(), "r.t".to_string());
    let setup = sync.setup(&columns(), &columns()).unwrap();
    let (sql, count) = sync.check_chunk(&setup, &keys(&[1, 2]), &keys(&[8, 9]), true);
    assert_eq!(count, 2);
    assert_eq!(
        sql,
        format!("{}DELETE FROM s.t WHERE id = 1;\nDELETE FROM s.t WHERE id = 2;\n", DELETE_HEADER)
    );
    let text = |s: &str| vec![RowValue::Text(s.to_string())];
    let mut sync = TableDeleteSync::new("s.t".to_string(), "r.t".to_string());
    sync.set_alternate_keys(Some(names(&["name"])));
    let setup = sync.setup(&columns(), &columns()).unwrap();
    let (sql, count) = sync.check_chunk(&setup, &[text("a"), text("b")], &[text("a"), text("a")], true);
    assert_eq!(count, 1);
    assert_eq!(sql, format!("{}DELETE FROM s.t WHERE name = 'b';\n", DELETE_HEADER));
    let (sql, count) = sync.check_chunk(&setup, &[text("a"), text("b")], &[text("b"), text("a")], true);
    assert_eq!((sql.as_str(), count), ("", 0));
}

#[test]
fn delete_searches_that_cannot_run() {
    let mut sync = TableDeleteSync::new("s.t".to_string(), "r.t".to_string());
    let keyless = [column("id", PgType::Int4, false)];
    match sync.setup(&keyless, &columns()) {
        Err(DataDiffError::NoPrimaryKey(t)) => assert_eq!(t, "s.t"),
        _ => panic!("expected NoPrimaryKey"),
    }
    match sync.setup(&columns(), &[column("other", PgType::Int4, true)]) {
        Err(DataDiffError::ColumnMismatch { ref_table, target_table }) => {
            assert_eq!((ref_table.as_str(), target_table.as_str()), ("r.t", "s.t"))
        }
        _ => panic!("expected ColumnMismatch"),
    }
    sync.set_alternate_keys(Some(names(&["name"])));
    assert_eq!(sync.setup(&columns(), &columns()).unwrap().pk_cols[0].name, "name");
    sync.set_alternate_keys(None);
    sync.cancel();
    let setup = sync.setup(&columns(), &columns()).unwrap();
    let mut run = sync.execute(setup);
    run.take_keys(keys(&[1]));
    assert!(matches!(run.action(), Err(DataDiffError::Cancelled)));
}
