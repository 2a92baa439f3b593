use diff_data::checksum::{build_checksum_query, checksum_tasks};
use diff_data::collections::TextMap;
use diff_data::instant::Timestamp;
use diff_data::table_diff::HashedKey;
use diff_data::types::{ColumnInfo, DayCount, PgType, Real64, RowValue};
use diff_data::{
    compare_checksums, compute_db_checksums, compute_table_checksums, ChecksumManifest, ChunkChecksum,
    ChunkStrategy, TableAnalysis, TableChecksum,
};

fn hashes(pairs: &[(&str, &str)]) -> TextMap<String> {
    let mut map = TextMap::new();
    for (k, v) in pairs {
        map.insert(k.to_string(), v.to_string());
    }
    map
}

fn chunk(index: usize, pairs: &[(&str, &str)]) -> ChunkChecksum {
    ChunkChecksum {
        chunk_index: index,
        chunk_start: String::new(),
        chunk_end: String::new(),
        row_hashes: hashes(pairs),
    }
}

fn manifest(name: &str, row_count: i64, chunks: Vec<ChunkChecksum>) -> ChecksumManifest {
    ChecksumManifest {
        db_name: None,
        schema: None,
        created_at: String::new(),
        tables: vec![TableChecksum {
            table_name: name.to_string(),
            strategy: "IdChunkSmall".to_string(),
            row_count,
            timestamp_column: None,
            chunks,
        }],
    }
}

fn column(name: &str, pg_type: PgType, is_pk: bool) -> ColumnInfo {
    ColumnInfo { name: name.to_string(), pg_type, is_pk, is_identity: false, ordinal: 0 }
}

fn analysis(table: &str, rows: i64, strategy: ChunkStrategy) -> TableAnalysis {
    TableAnalysis {
        ref_table: table.to_string(),
        target_table: table.to_string(),
        row_count: rows,
        timestamp_column: Some("updated".to_string()),
        strategy,
        estimated_seconds: Real64 { bits: 0, display: "0".to_string(), debug: "0.0".to_string() },
    }
}

#[test]
fn test_compare_checksums_with_diffs() {
    let ref_manifest = manifest("users", 3, vec![chunk(0, &[("1", "aaa"), ("2", "bbb"), ("3", "ccc")])]);
    let target_manifest = manifest(
        "users",
        3,
        vec![chunk(
            0,
            &[
                ("1", "aaa"), // same
                ("2", "xxx"), // modified
                ("4", "ddd"), // extra in target
            ],
        )],
    );

    let summaries = compare_checksums(&ref_manifest, &target_manifest);
    assert_eq!(summaries.len(), 1);

    let s = &summaries[0];
    assert_eq!(s.table_name, "users");
    assert_eq!(s.differing_chunks, vec![0]);
    assert_eq!(s.missing_in_target, vec!["3".to_string()]);
    assert_eq!(s.missing_in_reference, vec!["4".to_string()]);
    assert_eq!(s.modified, vec!["2".to_string()]);
}

#[test]
fn test_compare_checksums_identical() {
    let manifest = manifest("orders", 2, vec![chunk(0, &[("1", "aaa"), ("2", "bbb")])]);
    let summaries = compare_checksums(&manifest, &manifest.clone());
    assert!(summaries.is_empty());
}

#[test]
fn a_table_that_the_target_lacks_is_missing_whole() {
    let reference = manifest("users", 3, vec![chunk(7, &[("1", "a")]), chunk(9, &[("2", "b")])]);
    let target = manifest("orders", 0, vec![]);
    let summaries = compare_checksums(&reference, &target);
    assert_eq!(summaries.len(), 1);
    assert_eq!(summaries[0].differing_chunks, vec![0, 1]);
    assert_eq!(summaries[0].missing_in_target, vec!["1".to_string(), "2".to_string()]);
    assert!(summaries[0].modified.is_empty());
}

#[test]
fn chunks_that_one_side_lacks_are_missing_whole() {
    let reference = manifest("users", 3, vec![chunk(0, &[("1", "a")])]);
    let target = manifest("users", 3, vec![chunk(1, &[("2", "b")])]);
    let there = compare_checksums(&reference, &target);
    assert_eq!(there[0].differing_chunks, vec![0, 1]);
    assert_eq!(there[0].missing_in_target, vec!["1".to_string()]);
    assert_eq!(there[0].missing_in_reference, vec!["2".to_string()]);
    let back = compare_checksums(&target, &reference);
    assert_eq!(back[0].missing_in_target, there[0].missing_in_reference);
    assert_eq!(back[0].missing_in_reference, there[0].missing_in_target);
}

fn sorted(mut all: Vec<String>) -> Vec<String> {
    all.sort();
    all
}

#[test]
fn swapped_manifests_give_mirrored_summaries() {
    let a = manifest(
        "t",
        1,
        vec![chunk(3, &[("1", "x"), ("2", "y")]), chunk(0, &[("1", "x"), ("5", "p")]), chunk(8, &[("1", "z")])],
    );
    let b = manifest("t", 1, vec![chunk(0, &[("5", "q")]), chunk(4, &[("9", "r")]), chunk(3, &[("2", "y")])]);
    let there = compare_checksums(&a, &b).remove(0);
    let back = compare_checksums(&b, &a).remove(0);
    assert_eq!(sorted(there.missing_in_target.clone()), vec!["1".to_string(); 3]);
    assert_eq!(sorted(there.missing_in_target), sorted(back.missing_in_reference));
    assert_eq!(sorted(there.missing_in_reference), sorted(back.missing_in_target));
    assert_eq!(sorted(there.modified), sorted(back.modified));
    let (mut chunks, mut back_chunks) = (there.differing_chunks, back.differing_chunks);
    chunks.sort();
    back_chunks.sort();
    assert_eq!(chunks, vec![0, 3, 4, 8]);
    assert_eq!(chunks, back_chunks);
}

#[test]
fn only_names_indices_and_hashes_count() {
    let reference = manifest("t", 1, vec![chunk(0, &[("1", "a"), ("2", "b")])]);
    let target = manifest("t", 1, vec![chunk(0, &[("1", "a"), ("2", "c")])]);
    let mut other_reference = reference.clone();
    other_reference.db_name = Some("db".to_string());
    other_reference.created_at = "now".to_string();
    other_reference.tables[0].row_count = 99;
    other_reference.tables[0].strategy = "other".to_string();
    other_reference.tables[0].chunks[0].chunk_start = "start".to_string();
    let mut other_target = target.clone();
    other_target.schema = Some("s".to_string());
    other_target.tables[0].timestamp_column = Some("ts".to_string());
    other_target.tables.insert(0, manifest("target_only", 7, vec![chunk(0, &[("1", "a")])]).tables.remove(0));
    other_target.tables.push(manifest("another", 7, vec![]).tables.remove(0));
    let expected = compare_checksums(&reference, &target);
    let found = compare_checksums(&other_reference, &other_target);
    assert_eq!(format!("{:?}", found), format!("{:?}", expected));
    assert_eq!(found.len(), 1);
    assert_eq!(found[0].modified, vec!["2".to_string()]);
}

#[test]
fn checksums_of_an_unsplit_table_are_one_chunk() {
    let rows = vec![
        HashedKey { md5: "h1".to_string(), key: vec![RowValue::I32(1), RowValue::Null] },
        HashedKey { md5: "h2".to_string(), key: vec![RowValue::I32(2), RowValue::Text("x".to_string())] },
    ];
    let table = compute_table_checksums(
        "public.users",
        &analysis("public.users", 2, ChunkStrategy::IdChunkSmall),
        &[],
        &[rows],
    )
    .unwrap();
    assert_eq!(table.table_name, "users");
    assert_eq!(table.strategy, "IdChunkSmall");
    assert_eq!(table.row_count, 2);
    assert_eq!(table.timestamp_column, Some("updated".to_string()));
    assert_eq!(table.chunks.len(), 1);
    assert_eq!(table.chunks[0].chunk_start, "");
    assert_eq!(table.chunks[0].row_hashes.len(), 2);
    assert_eq!(table.chunks[0].row_hashes.get("1|NULL"), Some(&"h1".to_string()));
    assert_eq!(table.chunks[0].row_hashes.get("2|x"), Some(&"h2".to_string()));
}

#[test]
fn checksums_of_a_split_table_name_their_bounds() {
    let min = Timestamp::new(1_704_067_200, 0).unwrap();
    let max = Timestamp::new(1_704_240_000, 500_000_000).unwrap();
    let strategy = ChunkStrategy::Md5TimestampChunk {
        timestamp_column: "updated".to_string(),
        min_ts: min,
        max_ts: max,
        chunk_days: DayCount { bits: 0x3ff0_0000_0000_0000, one_decimal: "1.0".to_string() },
    };
    let split = analysis("t", 2_000_000, strategy);
    assert!(compute_table_checksums("t", &split, &[0, i64::MAX], &[vec![], vec![]]).is_none());
    let table = compute_table_checksums("t", &split, &[0, 86_400], &[vec![], vec![]]).unwrap();
    assert_eq!(table.strategy, "Md5TimestampChunk(col=updated, chunk_days=1.0)");
    assert_eq!(table.chunks[0].chunk_index, 0);
    assert_eq!(table.chunks[0].chunk_start, "2024-01-01 00:00:00");
    assert_eq!(table.chunks[0].chunk_end, "2024-01-02 00:00:00");
    assert_eq!(table.chunks[1].chunk_index, 1);
    assert_eq!(table.chunks[1].chunk_end, "2024-01-03 00:00:01.500");
}

#[test]
fn checksum_queries_follow_the_strategy() {
    let columns = [column("id", PgType::Int4, true), column("Name", PgType::Text, false)];
    let keys = [column("id", PgType::Int4, true)];
    assert_eq!(
        build_checksum_query("s.t", &columns, &keys, &ChunkStrategy::IdChunkMedium, None),
        "SELECT md5(ROW(id, \"Name\")::text), id FROM s.t ORDER BY id"
    );
    let time = Timestamp::new(0, 0).unwrap();
    let strategy = ChunkStrategy::Md5TimestampChunk {
        timestamp_column: "Updated".to_string(),
        min_ts: time,
        max_ts: time,
        chunk_days: DayCount { bits: 0, one_decimal: "0.0".to_string() },
    };
    assert_eq!(
        build_checksum_query("s.t", &columns, &keys, &ChunkStrategy::IdChunkMedium, Some("a = 1")),
        "SELECT md5(ROW(id, \"Name\")::text), id FROM s.t WHERE (a = 1) ORDER BY id"
    );
    assert_eq!(
        build_checksum_query("s.t", &columns, &keys, &strategy, None),
        "SELECT md5(ROW(id, \"Name\")::text), id FROM s.t WHERE \"Updated\" >= $1 AND \"Updated\" < $2 ORDER BY id"
    );
}

#[test]
fn only_analyzed_tables_get_checksums() {
    let tables = vec!["a".to_string(), "b".to_string(), "c".to_string()];
    let analyses = vec![
        analysis("c", 1, ChunkStrategy::IdChunkSmall),
        analysis("a", 2, ChunkStrategy::IdChunkSmall),
        analysis("c", 3, ChunkStrategy::IdChunkSmall),
    ];
    let tasks = checksum_tasks(&tables, &analyses);
    assert_eq!(tasks.len(), 2);
    assert_eq!((tasks[0].0, tasks[0].1.row_count), (0, 2));
    assert_eq!((tasks[1].0, tasks[1].1.row_count), (2, 3));
}

#[test]
fn a_manifest_names_its_database() {
    let m = compute_db_checksums(vec![], Some("db"), None, "now".to_string());
    assert_eq!(m.db_name, Some("db".to_string()));
    assert_eq!(m.schema, None);
    assert_eq!(m.created_at, "now");
    assert!(m.tables.is_empty());
}
