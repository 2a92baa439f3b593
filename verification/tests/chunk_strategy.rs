use diff_data::chunk_strategy::{
    build_range_query, choose_strategy, chunk_bounds, detect_timestamp_column, determine_strategy, strategy_bounds,
    get_timestamp_range, StrategyChoice,
};
use diff_data::collections::NameSet;
use diff_data::config::{DiffConfig, TablePair};
use diff_data::estimation::{
    analyze_and_estimate, build_estimate_query, check_estimate, find_analysis, EstimationPhase,
};
use diff_data::instant::Timestamp;
use diff_data::types::{ColumnInfo, DayCount, PgType, Real64};
use diff_data::{ChunkStrategy, DataDiffError};

fn column(name: &str, pg_type: PgType) -> ColumnInfo {
    ColumnInfo { name: name.to_string(), pg_type, is_pk: false, is_identity: false, ordinal: 0 }
}

fn days(v: f64) -> DayCount {
    DayCount { bits: v.to_bits(), one_decimal: format!("{:.1}", v) }
}

fn seconds(v: f64) -> Real64 {
    Real64 { bits: v.to_bits(), display: v.to_string(), debug: format!("{:?}", v) }
}

#[test]
fn the_configured_column_comes_first() {
    let columns = [column("updated_at", PgType::Timestamp), column("Seen", PgType::Text)];
    assert_eq!(detect_timestamp_column(&columns, Some("seen")), Some("seen".to_string()));
    assert_eq!(detect_timestamp_column(&columns, Some("absent")), Some("updated_at".to_string()));
}

#[test]
fn update_columns_come_before_create_columns() {
    let columns = [
        column("created", PgType::Date),
        column("update_note", PgType::Text),
        column("Updated_On", PgType::Timestamptz),
    ];
    assert_eq!(detect_timestamp_column(&columns, None), Some("Updated_On".to_string()));
    assert_eq!(detect_timestamp_column(&columns[..2], None), Some("created".to_string()));
    assert_eq!(detect_timestamp_column(&columns[1..2], None), None);
    assert_eq!(detect_timestamp_column(&[column("updated", PgType::Time)], None), None);
}

#[test]
fn strategies_follow_the_row_count() {
    let with = [column("updated", PgType::Timestamp)];
    let without = [column("x", PgType::Int4)];
    match choose_strategy("t", 99_999, &with, None, false) {
        Ok(StrategyChoice::Decided { strategy: ChunkStrategy::IdChunkSmall, timestamp_column }) => {
            assert_eq!(timestamp_column, None)
        }
        _ => panic!("expected small"),
    }
    for rows in [100_000, 1_000_000] {
        match choose_strategy("t", rows, &with, None, false) {
            Ok(StrategyChoice::Decided { strategy: ChunkStrategy::IdChunkMedium, timestamp_column }) => {
                assert_eq!(timestamp_column, Some("updated".to_string()))
            }
            _ => panic!("expected medium"),
        }
    }
    match choose_strategy("t", 1_000_001, &with, None, false) {
        Ok(StrategyChoice::NeedsRange { column }) => assert_eq!(column, "updated"),
        _ => panic!("expected a range"),
    }
    match choose_strategy("t", 1_000_001, &without, None, true) {
        Ok(StrategyChoice::Decided { strategy: ChunkStrategy::IdChunkLargeExcluded, .. }) => {}
        _ => panic!("expected large excluded"),
    }
    match choose_strategy("s.t", 1_000_001, &without, None, false) {
        Err(DataDiffError::Config(m)) => assert_eq!(
            m,
            "Table 's.t' has >1M rows but no timestamp column detected. Define a timestamp column in config (timestamp_column) or add the table to the exclusion list."
        ),
        _ => panic!("expected an error"),
    }
}

#[test]
fn a_range_decides_a_large_table() {
    let min = Timestamp::new(0, 0).unwrap();
    let max = Timestamp::new(864_000, 0).unwrap();
    let choice = StrategyChoice::NeedsRange { column: "u".to_string() };
    let (strategy, column) =
        determine_strategy(choice.clone(), get_timestamp_range(Some(min), Some(max)), days(1.0));
    assert_eq!(column, Some("u".to_string()));
    assert_eq!(strategy.to_text(), "Md5TimestampChunk(col=u, chunk_days=1.0)");
    let (strategy, column) = determine_strategy(choice, get_timestamp_range(Some(min), None), days(1.0));
    assert_eq!(strategy.to_text(), "IdChunkSmall");
    assert_eq!(column, Some("u".to_string()));
    assert_eq!(
        build_range_query("s.t", "Ts", None),
        "SELECT MIN(\"Ts\")::timestamp, MAX(\"Ts\")::timestamp FROM s.t"
    );
    assert_eq!(
        build_range_query("s.t", "ts", Some("a = 1")),
        "SELECT MIN(ts)::timestamp, MAX(ts)::timestamp FROM s.t WHERE (a = 1)"
    );
}

#[test]
fn chunks_cover_the_range_once() {
    let min = Timestamp::new(100, 5).unwrap();
    let max = Timestamp::new(160, 7).unwrap();
    let bounds = chunk_bounds(min, max, &[0, 20, 40]).unwrap();
    assert_eq!(bounds.len(), 3);
    assert_eq!((bounds[0].start.seconds(), bounds[0].end.seconds()), (100, 120));
    assert_eq!((bounds[1].start.seconds(), bounds[1].end.seconds()), (120, 140));
    assert_eq!((bounds[2].start.seconds(), bounds[2].end.seconds()), (140, 161));
    assert_eq!((bounds[1].end.subsec_nanos(), bounds[2].end.subsec_nanos()), (5, 7));
    for second in 100..=160 {
        let found = bounds
            .iter()
            .filter(|b| {
                let t = (second, 6);
                (b.start.seconds(), b.start.subsec_nanos()) <= t && t < (b.end.seconds(), b.end.subsec_nanos())
            })
            .count();
        assert_eq!(found, 1);
    }
    assert!(chunk_bounds(min, max, &[0, i64::MAX]).is_none());
    let strategy = ChunkStrategy::Md5TimestampChunk {
        timestamp_column: "ts".to_string(),
        min_ts: min,
        max_ts: max,
        chunk_days: days(1.0),
    };
    assert_eq!(strategy_bounds(&strategy, &[0, 20, 40]), Some(bounds));
    assert_eq!(strategy_bounds(&strategy, &[0, i64::MAX]), None);
    assert_eq!(strategy_bounds(&ChunkStrategy::IdChunkSmall, &[0, i64::MAX]), Some(vec![]));
}

#[test]
fn estimates_that_are_too_long_are_refused() {
    assert!(check_estimate(false, false, "1", "0.0", "10").is_ok());
    assert!(check_estimate(true, true, "1", "0.0", "10").is_ok());
    match check_estimate(true, false, "20000", "5.6", "10800") {
        Err(DataDiffError::Config(m)) => assert_eq!(
            m,
            "Estimated time to completion: 20000s (5.6h) exceeds maximum allowed 10800s. Use force=true to override."
        ),
        _ => panic!("expected an error"),
    }
    let columns = [column("id", PgType::Int4), column("ts", PgType::Timestamp)];
    assert_eq!(
        build_estimate_query("t", &columns, "ts", None),
        "SELECT md5(ROW(id, ts)::text) FROM t WHERE ts >= $1 AND ts < $2"
    );
}

#[test]
fn pairs_are_analyzed_in_order() {
    let pairs = vec![
        TablePair { reference: "s.small".to_string(), target: "t.small".to_string() },
        TablePair { reference: "s.Large".to_string(), target: "t.Large".to_string() },
        TablePair { reference: "s.huge".to_string(), target: "t.huge".to_string() },
    ];
    let mut config = DiffConfig::new("out.sql".to_string(), ".".to_string());
    config.exclude_tables = NameSet::from_names(&["LARGE".to_string()]);
    let mut run = analyze_and_estimate(&pairs, &config);
    run.take_columns(vec![column("x", PgType::Int4)]);
    run.take_row_count(5).unwrap();
    run.take_estimate(6, seconds(0.1));
    run.take_columns(vec![column("x", PgType::Int4)]);
    run.take_row_count(2_000_000).unwrap();
    run.take_estimate(2_000_000, seconds(100.0));
    run.take_columns(vec![column("updated", PgType::Date)]);
    run.take_row_count(3_000_000).unwrap();
    match &run.phase {
        EstimationPhase::Range { column, .. } => assert_eq!(column, "updated"),
        _ => panic!("expected a range"),
    }
    run.take_range(None, days(1.0));
    run.take_estimate(3_000_000, seconds(0.1));
    assert!(matches!(run.phase, EstimationPhase::Done));
    assert_eq!(run.analyses.len(), 3);
    assert_eq!(run.analyses[0].ref_table, "s.small");
    assert_eq!(run.analyses[0].row_count, 6);
    assert_eq!(run.analyses[1].strategy.to_text(), "IdChunkLargeExcluded");
    assert_eq!(run.analyses[2].strategy.to_text(), "IdChunkSmall");
    assert_eq!(run.analyses[2].timestamp_column, Some("updated".to_string()));
    assert_eq!(find_analysis(&run.analyses, "s.huge").unwrap().target_table, "t.huge");
    assert!(find_analysis(&run.analyses, "huge").is_none());
}

#[test]
fn the_analysis_keeps_to_the_condition_on_the_reference() {
    let pairs = vec![TablePair { reference: "s.t".to_string(), target: "z.t".to_string() }];
    let mut config = DiffConfig::new("out.sql".to_string(), ".".to_string());
    config.table_where = Some("where a = 1".to_string());
    let mut run = analyze_and_estimate(&pairs, &config);
    assert_eq!((run.range_query(), run.estimate_queries()), (None, None));
    run.take_columns(vec![column("updated", PgType::Timestamp)]);
    run.take_row_count(3_000_000).unwrap();
    assert_eq!(
        run.range_query().unwrap(),
        "SELECT MIN(updated)::timestamp, MAX(updated)::timestamp FROM s.t WHERE (a = 1)"
    );
    let range = (Timestamp::new(0, 0).unwrap(), Timestamp::new(100, 0).unwrap());
    run.take_range(Some(range), days(1.0));
    let (reference, target) = run.estimate_queries().unwrap();
    assert_eq!(
        reference,
        "SELECT md5(ROW(updated)::text) FROM s.t WHERE updated >= $1 AND updated < $2 AND (a = 1)"
    );
    assert_eq!(target, "SELECT md5(ROW(updated)::text) FROM z.t WHERE updated >= $1 AND updated < $2");
}

#[test]
fn a_large_table_without_a_timestamp_stops_the_analysis() {
    let pairs = vec![TablePair { reference: "big".to_string(), target: "big".to_string() }];
    let config = DiffConfig::new("out.sql".to_string(), ".".to_string());
    let mut run = analyze_and_estimate(&pairs, &config);
    run.take_columns(vec![column("x", PgType::Int4)]);
    assert!(matches!(run.take_row_count(2_000_000), Err(DataDiffError::Config(_))));
}
