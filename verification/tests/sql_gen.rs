use diff_data::collections::NameSet;
use diff_data::instant::{CalendarDate, TimeOfDay, Timestamp};
use diff_data::sql_gen::{
    build_check_query, build_delete_check_query, build_hash_query, build_lookup_query, build_pk_select,
    build_range_rows_query, build_reference_keys_query, escape_string_literal, format_literal, format_table_name, generate_delete, generate_insert,
    generate_update, quote_identifier,
};
use diff_data::types::{ColumnInfo, JsonText, PgType, Real32, Real64, RowValue};

fn column(name: &str, pg_type: PgType) -> ColumnInfo {
    ColumnInfo { name: name.to_string(), pg_type, is_pk: false, is_identity: false, ordinal: 0 }
}

fn real64(v: f64) -> RowValue {
    RowValue::F64(Real64 { bits: v.to_bits(), display: v.to_string(), debug: format!("{:?}", v) })
}

fn real32(v: f32) -> RowValue {
    RowValue::F32(Real32 { bits: v.to_bits(), display: v.to_string(), debug: format!("{:?}", v) })
}

fn json(text: &str) -> RowValue {
    RowValue::Json(JsonText::new(text.to_string()).unwrap())
}

#[test]
fn identifiers_are_quoted_where_needed() {
    assert_eq!(quote_identifier("users"), "users");
    assert_eq!(quote_identifier("user_2"), "user_2");
    assert_eq!(quote_identifier("2nd"), "\"2nd\"");
    assert_eq!(quote_identifier("Users"), "\"Users\"");
    assert_eq!(quote_identifier("a b"), "\"a b\"");
    assert_eq!(quote_identifier(""), "\"\"");
    assert_eq!(quote_identifier("a\"b"), "\"a\"\"b\"");
    assert_eq!(quote_identifier("é"), "\"é\"");
}

#[test]
fn reserved_words_are_quoted() {
    for word in ["select", "order", "user", "table", "group", "all", "with", "left", "verbose", "window"] {
        assert_eq!(quote_identifier(word), format!("\"{}\"", word));
    }
    for name in ["selects", "name", "value", "orders", "text", "with_", "usr"] {
        assert_eq!(quote_identifier(name), name);
    }
    assert_eq!(format_table_name("public.order"), "public.\"order\"");
    let columns = [column("user", PgType::Text)];
    assert_eq!(build_pk_select("s.group", &columns), "SELECT \"user\" FROM s.\"group\"");
}

#[test]
fn different_identifiers_stay_different() {
    assert_ne!(quote_identifier("a"), quote_identifier("A"));
    assert_ne!(quote_identifier("a\"b"), quote_identifier("a\"\"b"));
}

#[test]
fn table_names_are_split_at_the_first_dot() {
    assert_eq!(format_table_name("public.users"), "public.users");
    assert_eq!(format_table_name("Public.users"), "\"Public\".users");
    assert_eq!(format_table_name("a.b.c"), "a.\"b.c\"");
    assert_eq!(format_table_name("users"), "users");
}

#[test]
fn strings_are_escaped() {
    assert_eq!(escape_string_literal("it's"), "'it''s'");
    assert_eq!(escape_string_literal("a\\'b"), "E'a\\\\''b'");
    assert_eq!(escape_string_literal(""), "''");
    assert_ne!(escape_string_literal("a'b"), escape_string_literal("a''b"));
}

#[test]
fn literals() {
    assert_eq!(format_literal(&RowValue::Null), "NULL");
    assert_eq!(format_literal(&RowValue::Bool(true)), "TRUE");
    assert_eq!(format_literal(&RowValue::Bool(false)), "FALSE");
    assert_eq!(format_literal(&RowValue::I16(-5)), "-5");
    assert_eq!(format_literal(&RowValue::I32(i32::MIN)), "-2147483648");
    assert_eq!(format_literal(&RowValue::I64(i64::MIN)), "-9223372036854775808");
    assert_eq!(format_literal(&RowValue::I64(i64::MAX)), "9223372036854775807");
    assert_eq!(format_literal(&RowValue::Numeric("1.50".to_string())), "1.50");
    assert_eq!(format_literal(&RowValue::Bytes(vec![0, 255, 16])), "'\\x00ff10'");
    assert_eq!(
        format_literal(&RowValue::Uuid(0x550e8400_e29b_41d4_a716_446655440000)),
        "'550e8400-e29b-41d4-a716-446655440000'::uuid"
    );
}

#[test]
fn floating_point_literals() {
    assert_eq!(format_literal(&real64(1.5)), "1.5");
    assert_eq!(format_literal(&real64(-0.0)), "-0");
    assert_eq!(format_literal(&real64(f64::NAN)), "'NaN'::double precision");
    assert_eq!(format_literal(&real64(f64::INFINITY)), "'Infinity'::double precision");
    assert_eq!(format_literal(&real64(f64::NEG_INFINITY)), "'-Infinity'::double precision");
    assert_eq!(format_literal(&real32(2.25)), "2.25");
    assert_eq!(format_literal(&real32(f32::NAN)), "'NaN'::real");
    assert_eq!(format_literal(&real32(f32::INFINITY)), "'Infinity'::real");
    assert_eq!(format_literal(&real32(f32::NEG_INFINITY)), "'-Infinity'::real");
}

#[test]
fn literals_of_points_in_time() {
    let second = Timestamp::new(1_700_000_000, 0).unwrap();
    let milli = Timestamp::new(1_700_000_000, 250_000_000).unwrap();
    let nano = Timestamp::new(-1, 999_999_999).unwrap();
    assert_eq!(format_literal(&RowValue::Timestamp(second)), "'2023-11-14 22:13:20'::timestamp");
    assert_eq!(format_literal(&RowValue::Timestamp(milli)), "'2023-11-14 22:13:20.250'::timestamp");
    assert_eq!(format_literal(&RowValue::Timestamp(nano)), "'1969-12-31 23:59:59.999999999'::timestamp");
    assert_eq!(
        format_literal(&RowValue::TimestampTz(milli)),
        "'2023-11-14 22:13:20.250+00:00'::timestamptz"
    );
    assert_eq!(
        format_literal(&RowValue::Date(CalendarDate::new(738_000).unwrap())),
        "'2021-07-29'::date"
    );
    let date = |days| format_literal(&RowValue::Date(CalendarDate::new(days).unwrap()));
    assert_eq!(date(1), "'0001-01-01'::date");
    assert_eq!(date(0), "'0000-12-31'::date");
    assert_eq!(date(-366), "'-0001-12-31'::date");
    assert_eq!(date(3_652_060), "'+10000-01-01'::date");
    assert_eq!(date(730_179), "'2000-02-29'::date");
    assert_eq!(
        format_literal(&RowValue::Time(TimeOfDay::new(3_661, 1_000).unwrap())),
        "'01:01:01.000001'::time"
    );
}

#[test]
fn literals_of_json() {
    assert_eq!(format_literal(&json("{ \"b\": 1, \"a\": \"it's\" }")), "'{\"a\":\"it''s\",\"b\":1}'::jsonb");
    assert_eq!(format_literal(&json("\"\\\\\"")), "E'\"\\\\\\\\\"'::jsonb");
    assert!(JsonText::new("{".to_string()).is_none());
}

#[test]
fn inserts_leave_out_excluded_columns() {
    let columns = [column("id", PgType::Int4), column("Name", PgType::Text), column("n", PgType::Int4)];
    let row = [RowValue::I32(1), RowValue::Text("x".to_string()), RowValue::Null];
    let none = NameSet::new();
    assert_eq!(
        generate_insert("s.t", &columns, &row, &none),
        "INSERT INTO s.t (id, \"Name\", n) VALUES (1, 'x', NULL);"
    );
    let some = NameSet::from_names(&["name".to_string()]);
    assert_eq!(generate_insert("s.t", &columns, &row, &some), "INSERT INTO s.t (id, n) VALUES (1, NULL);");
    let last = NameSet::from_names(&["n".to_string()]);
    assert_eq!(
        generate_insert("s.t", &columns, &row[..2], &last),
        "INSERT INTO s.t (id, \"Name\") VALUES (1, 'x');"
    );
}

#[test]
fn updates_set_the_modified_columns() {
    let columns = [column("id", PgType::Int4), column("name", PgType::Text), column("n", PgType::Int4)];
    let keys = [column("ID", PgType::Int4)];
    let row = [RowValue::I32(1), RowValue::Text("x".to_string()), RowValue::Null];
    assert_eq!(
        generate_update("t", &columns, &keys, &row, &[1, 2]),
        Some("UPDATE t SET name = 'x', n = NULL WHERE \"ID\" = 1;".to_string())
    );
    assert_eq!(generate_update("t", &columns, &keys, &row, &[]), None);
}

#[test]
fn deletes_find_a_row_by_its_key() {
    let keys = [column("a", PgType::Int4), column("b", PgType::Text)];
    assert_eq!(
        generate_delete("t", &keys, &keys, &[RowValue::I32(1), RowValue::Null]),
        "DELETE FROM t WHERE a = 1 AND b IS NULL;"
    );
}

#[test]
fn lookups_join_keys() {
    let columns = [column("id", PgType::Int4), column("name", PgType::Text)];
    let keys = [column("id", PgType::Int4)];
    let rows = [
        vec![RowValue::I32(1), RowValue::Null],
        vec![RowValue::I32(2), RowValue::Null],
    ];
    assert_eq!(
        build_check_query("t", &columns, &keys, &rows),
        "SELECT id, name FROM t WHERE (id = 1) OR (id = 2)"
    );
    let target = [column("extra", PgType::Text), column("id", PgType::Int4), column("name", PgType::Text)];
    assert_eq!(
        build_lookup_query("t", &target, &columns, &keys, &rows),
        "SELECT extra, id, name FROM t WHERE (id = 1) OR (id = 2)"
    );
    assert_eq!(build_pk_select("s.t", &keys), "SELECT id FROM s.t");
    assert_eq!(
        build_delete_check_query("t", &keys, &[vec![RowValue::I32(3)], vec![RowValue::Null]]),
        "SELECT id FROM t WHERE (id = 3) OR (id IS NULL)"
    );
    assert_eq!(
        build_range_rows_query("t", &columns, &keys, "ts", None),
        "SELECT id, name FROM t WHERE ts >= $1 AND ts < $2 ORDER BY id"
    );
}

#[test]
fn conditions_on_the_reference_are_added() {
    let columns = [column("id", PgType::Int4), column("name", PgType::Text)];
    let keys = [column("id", PgType::Int4)];
    assert_eq!(
        build_range_rows_query("t", &columns, &keys, "ts", Some("a = 1 OR b = 2")),
        "SELECT id, name FROM t WHERE ts >= $1 AND ts < $2 AND (a = 1 OR b = 2) ORDER BY id"
    );
    assert_eq!(
        build_hash_query("t", &columns, &keys, None, Some("a = 1")),
        "SELECT md5(ROW(id, name)::text), id FROM t WHERE (a = 1) ORDER BY id"
    );
    let rows = [vec![RowValue::I32(3)], vec![RowValue::I32(4)]];
    assert_eq!(
        build_reference_keys_query("t", &keys, &rows, Some("a = 1")),
        "SELECT id FROM t WHERE ((id = 3) OR (id = 4)) AND (a = 1)"
    );
    assert_eq!(
        build_reference_keys_query("t", &keys, &rows, None),
        "SELECT id FROM t WHERE (id = 3) OR (id = 4)"
    );
}

#[test]
fn numbers_of_arbitrary_precision_are_fetched_as_text() {
    let columns = [column("id", PgType::Int4), column("price", PgType::Numeric)];
    let keys = [column("price", PgType::Numeric)];
    let rows = [vec![RowValue::I32(1), RowValue::Numeric("2.50".to_string())]];
    assert_eq!(
        build_check_query("t", &columns, &keys, &rows),
        "SELECT id, price FROM t WHERE (price = 2.50)"
    );
    assert_eq!(
        build_lookup_query("t", &columns, &columns, &keys, &rows),
        "SELECT id, price::text AS \"price as text\" FROM t WHERE (price = 2.50)"
    );
    assert_eq!(
        build_reference_keys_query("t", &keys, &[vec![RowValue::Numeric("1".to_string())]], None),
        "SELECT price::text AS \"price as text\" FROM t WHERE (price = 1)"
    );
    assert_eq!(
        build_hash_query("t", &columns, &keys, None, None),
        "SELECT md5(ROW(id, price)::text), price::text AS \"price as text\" FROM t ORDER BY price"
    );
}
