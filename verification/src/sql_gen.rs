//! SQL statements as text.

use vstd::prelude::*;

use crate::chunk_strategy;
use crate::collections;
use crate::collections::NameSet;
use crate::config;
use crate::instant;
use crate::outside;
use crate::text;
use crate::types;
use crate::types::{ColumnInfo, PgType, RealClass, Row, RowValue};

verus! {

/// A character that an identifier may hold without quotes.
pub open spec fn is_plain(c: char) -> bool {
    ('a' <= c <= 'z') || ('0' <= c <= '9') || c == '_'
}

/// Whether a name is one of PostgreSQL's reserved words, with which no table or column can be
/// named without quotes.
#[verifier::opaque]
pub open spec fn is_reserved(name: Seq<char>) -> bool {
    ||| name == "all"@
    ||| name == "analyse"@
    ||| name == "analyze"@
    ||| name == "and"@
    ||| name == "any"@
    ||| name == "array"@
    ||| name == "as"@
    ||| name == "asc"@
    ||| name == "asymmetric"@
    ||| name == "authorization"@
    ||| name == "binary"@
    ||| name == "both"@
    ||| name == "case"@
    ||| name == "cast"@
    ||| name == "check"@
    ||| name == "collate"@
    ||| name == "collation"@
    ||| name == "column"@
    ||| name == "concurrently"@
    ||| name == "constraint"@
    ||| name == "create"@
    ||| name == "cross"@
    ||| name == "current_catalog"@
    ||| name == "current_date"@
    ||| name == "current_role"@
    ||| name == "current_schema"@
    ||| name == "current_time"@
    ||| name == "current_timestamp"@
    ||| name == "current_user"@
    ||| name == "default"@
    ||| name == "deferrable"@
    ||| name == "desc"@
    ||| name == "distinct"@
    ||| name == "do"@
    ||| name == "else"@
    ||| name == "end"@
    ||| name == "except"@
    ||| name == "false"@
    ||| name == "fetch"@
    ||| name == "for"@
    ||| name == "foreign"@
    ||| name == "freeze"@
    ||| name == "from"@
    ||| name == "full"@
    ||| name == "grant"@
    ||| name == "group"@
    ||| name == "having"@
    ||| name == "ilike"@
    ||| name == "in"@
    ||| name == "initially"@
    ||| name == "inner"@
    ||| name == "intersect"@
    ||| name == "into"@
    ||| name == "is"@
    ||| name == "isnull"@
    ||| name == "join"@
    ||| name == "lateral"@
    ||| name == "leading"@
    ||| name == "left"@
    ||| name == "like"@
    ||| name == "limit"@
    ||| name == "localtime"@
    ||| name == "localtimestamp"@
    ||| name == "natural"@
    ||| name == "not"@
    ||| name == "notnull"@
    ||| name == "null"@
    ||| name == "offset"@
    ||| name == "on"@
    ||| name == "only"@
    ||| name == "or"@
    ||| name == "order"@
    ||| name == "outer"@
    ||| name == "overlaps"@
    ||| name == "placing"@
    ||| name == "primary"@
    ||| name == "references"@
    ||| name == "returning"@
    ||| name == "right"@
    ||| name == "select"@
    ||| name == "session_user"@
    ||| name == "similar"@
    ||| name == "some"@
    ||| name == "symmetric"@
    ||| name == "system_user"@
    ||| name == "table"@
    ||| name == "tablesample"@
    ||| name == "then"@
    ||| name == "to"@
    ||| name == "trailing"@
    ||| name == "true"@
    ||| name == "union"@
    ||| name == "unique"@
    ||| name == "user"@
    ||| name == "using"@
    ||| name == "variadic"@
    ||| name == "verbose"@
    ||| name == "when"@
    ||| name == "where"@
    ||| name == "window"@
    ||| name == "with"@
}

/// Whether a name is one of PostgreSQL's reserved words.
pub fn reserved(name: &str) -> (r: bool)
    ensures
        r == is_reserved(name@),
{
    proof { reveal(is_reserved); }
    let chars = text::chars_of(name);
    text::chars_are(chars.as_slice(), "all")
        || text::chars_are(chars.as_slice(), "analyse")
        || text::chars_are(chars.as_slice(), "analyze")
        || text::chars_are(chars.as_slice(), "and")
        || text::chars_are(chars.as_slice(), "any")
        || text::chars_are(chars.as_slice(), "array")
        || text::chars_are(chars.as_slice(), "as")
        || text::chars_are(chars.as_slice(), "asc")
        || text::chars_are(chars.as_slice(), "asymmetric")
        || text::chars_are(chars.as_slice(), "authorization")
        || text::chars_are(chars.as_slice(), "binary")
        || text::chars_are(chars.as_slice(), "both")
        || text::chars_are(chars.as_slice(), "case")
        || text::chars_are(chars.as_slice(), "cast")
        || text::chars_are(chars.as_slice(), "check")
        || text::chars_are(chars.as_slice(), "collate")
        || text::chars_are(chars.as_slice(), "collation")
        || text::chars_are(chars.as_slice(), "column")
        || text::chars_are(chars.as_slice(), "concurrently")
        || text::chars_are(chars.as_slice(), "constraint")
        || text::chars_are(chars.as_slice(), "create")
        || text::chars_are(chars.as_slice(), "cross")
        || text::chars_are(chars.as_slice(), "current_catalog")
        || text::chars_are(chars.as_slice(), "current_date")
        || text::chars_are(chars.as_slice(), "current_role")
        || text::chars_are(chars.as_slice(), "current_schema")
        || text::chars_are(chars.as_slice(), "current_time")
        || text::chars_are(chars.as_slice(), "current_timestamp")
        || text::chars_are(chars.as_slice(), "current_user")
        || text::chars_are(chars.as_slice(), "default")
        || text::chars_are(chars.as_slice(), "deferrable")
        || text::chars_are(chars.as_slice(), "desc")
        || text::chars_are(chars.as_slice(), "distinct")
        || text::chars_are(chars.as_slice(), "do")
        || text::chars_are(chars.as_slice(), "else")
        || text::chars_are(chars.as_slice(), "end")
        || text::chars_are(chars.as_slice(), "except")
        || text::chars_are(chars.as_slice(), "false")
        || text::chars_are(chars.as_slice(), "fetch")
        || text::chars_are(chars.as_slice(), "for")
        || text::chars_are(chars.as_slice(), "foreign")
        || text::chars_are(chars.as_slice(), "freeze")
        || text::chars_are(chars.as_slice(), "from")
        || text::chars_are(chars.as_slice(), "full")
        || text::chars_are(chars.as_slice(), "grant")
        || text::chars_are(chars.as_slice(), "group")
        || text::chars_are(chars.as_slice(), "having")
        || text::chars_are(chars.as_slice(), "ilike")
        || text::chars_are(chars.as_slice(), "in")
        || text::chars_are(chars.as_slice(), "initially")
        || text::chars_are(chars.as_slice(), "inner")
        || text::chars_are(chars.as_slice(), "intersect")
        || text::chars_are(chars.as_slice(), "into")
        || text::chars_are(chars.as_slice(), "is")
        || text::chars_are(chars.as_slice(), "isnull")
        || text::chars_are(chars.as_slice(), "join")
        || text::chars_are(chars.as_slice(), "lateral")
        || text::chars_are(chars.as_slice(), "leading")
        || text::chars_are(chars.as_slice(), "left")
        || text::chars_are(chars.as_slice(), "like")
        || text::chars_are(chars.as_slice(), "limit")
        || text::chars_are(chars.as_slice(), "localtime")
        || text::chars_are(chars.as_slice(), "localtimestamp")
        || text::chars_are(chars.as_slice(), "natural")
        || text::chars_are(chars.as_slice(), "not")
        || text::chars_are(chars.as_slice(), "notnull")
        || text::chars_are(chars.as_slice(), "null")
        || text::chars_are(chars.as_slice(), "offset")
        || text::chars_are(chars.as_slice(), "on")
        || text::chars_are(chars.as_slice(), "only")
        || text::chars_are(chars.as_slice(), "or")
        || text::chars_are(chars.as_slice(), "order")
        || text::chars_are(chars.as_slice(), "outer")
        || text::chars_are(chars.as_slice(), "overlaps")
        || text::chars_are(chars.as_slice(), "placing")
        || text::chars_are(chars.as_slice(), "primary")
        || text::chars_are(chars.as_slice(), "references")
        || text::chars_are(chars.as_slice(), "returning")
        || text::chars_are(chars.as_slice(), "right")
        || text::chars_are(chars.as_slice(), "select")
        || text::chars_are(chars.as_slice(), "session_user")
        || text::chars_are(chars.as_slice(), "similar")
        || text::chars_are(chars.as_slice(), "some")
        || text::chars_are(chars.as_slice(), "symmetric")
        || text::chars_are(chars.as_slice(), "system_user")
        || text::chars_are(chars.as_slice(), "table")
        || text::chars_are(chars.as_slice(), "tablesample")
        || text::chars_are(chars.as_slice(), "then")
        || text::chars_are(chars.as_slice(), "to")
        || text::chars_are(chars.as_slice(), "trailing")
        || text::chars_are(chars.as_slice(), "true")
        || text::chars_are(chars.as_slice(), "union")
        || text::chars_are(chars.as_slice(), "unique")
        || text::chars_are(chars.as_slice(), "user")
        || text::chars_are(chars.as_slice(), "using")
        || text::chars_are(chars.as_slice(), "variadic")
        || text::chars_are(chars.as_slice(), "verbose")
        || text::chars_are(chars.as_slice(), "when")
        || text::chars_are(chars.as_slice(), "where")
        || text::chars_are(chars.as_slice(), "window")
        || text::chars_are(chars.as_slice(), "with")
}

/// Whether an identifier has to be quoted: it is empty, starts with a digit, holds anything but
/// lowercase ASCII letters, digits and underscores, or is a reserved word.
pub open spec fn needs_quoting(name: Seq<char>) -> bool {
    ||| name.len() == 0
    ||| '0' <= name[0] <= '9'
    ||| exists|i: int| 0 <= i < name.len() && !is_plain(#[trigger] name[i])
    ||| is_reserved(name)
}

/// An identifier in SQL: in double quotes where it needs them, with its own doubled.
pub open spec fn quoted(name: Seq<char>) -> Seq<char> {
    if needs_quoting(name) {
        "\""@ + text::replaced(name, '"', "\"\""@) + "\""@
    } else {
        name
    }
}

/// Quote a PostgreSQL identifier (table/column name) if needed.
pub fn quote_identifier(name: &str) -> (r: String)
    ensures
        r@ == quoted(name@),
{
    let chars = text::chars_of(name);
    let mut needs: bool = chars.len() == 0 || (chars[0] >= '0' && chars[0] <= '9');
    let ghost first = needs;
    for i in 0..chars.len()
        invariant
            chars@ == name@,
            first == (name@.len() == 0 || '0' <= name@[0] <= '9'),
            needs == (first || exists|j: int| 0 <= j < i && !is_plain(#[trigger] name@[j])),
    {
        let c = chars[i];
        let plain = (c >= 'a' && c <= 'z') || (c >= '0' && c <= '9') || c == '_';
        assert(plain == is_plain(name@[i as int]));
        if !plain {
            needs = true;
        }
    }
    if needs || reserved(name) {
        let mut out = "\"".to_owned();
        out.append(text::replace_char(name, '"', "\"\"").as_str());
        out.append("\"");
        out
    } else {
        name.to_owned()
    }
}

/// A possibly schema-qualified table name in SQL: schema and table are quoted apart.
pub open spec fn table_sql(name: Seq<char>) -> Seq<char> {
    match config::schema_part(name) {
        Some(schema) => quoted(schema) + "."@ + quoted(config::table_part(name)),
        None => quoted(name),
    }
}

/// Format a schema-qualified table name for use in SQL.
pub fn format_table_name(name: &str) -> (r: String)
    ensures
        r@ == table_sql(name@),
{
    let (schema, table) = config::parse_table_name(name);
    match schema {
        Some(schema) => {
            let mut out = quote_identifier(schema);
            out.append(".");
            out.append(quote_identifier(table).as_str());
            out
        },
        None => quote_identifier(name),
    }
}

/// A text as a string literal. Where it holds a backslash the literal is of the form that reads
/// backslashes as escapes, and each is doubled.
pub open spec fn string_literal(s: Seq<char>) -> Seq<char> {
    if s.contains('\\') {
        "E'"@ + text::replaced(text::replaced(s, '\'', "''"@), '\\', "\\\\"@) + "'"@
    } else {
        "'"@ + text::replaced(s, '\'', "''"@) + "'"@
    }
}

/// Escape a string for use as a PostgreSQL string literal.
pub fn escape_string_literal(s: &str) -> (r: String)
    ensures
        r@ == string_literal(s@),
{
    let chars = text::chars_of(s);
    proof { text::lemma_length_before(s@, '\\'); }
    let quotes = text::replace_char(s, '\'', "''");
    if text::find_char(chars.as_slice(), '\\').is_some() {
        let mut out = "E'".to_owned();
        out.append(text::replace_char(quotes.as_str(), '\\', "\\\\").as_str());
        out.append("'");
        out
    } else {
        let mut out = "'".to_owned();
        out.append(quotes.as_str());
        out.append("'");
        out
    }
}

/// Bytes in hexadecimal, two digits each.
pub open spec fn hex_bytes(bytes: Seq<u8>) -> Seq<char>
    decreases bytes.len(),
{
    if bytes.len() == 0 {
        Seq::empty()
    } else {
        hex_bytes(bytes.drop_last()) + types::hex(bytes.last() as nat, 2)
    }
}

/// A floating point number as a literal of the given type.
pub open spec fn real_literal(class: RealClass, display: Seq<char>, sql_type: Seq<char>) -> Seq<char> {
    match class {
        RealClass::NotANumber => "'NaN'::"@ + sql_type,
        RealClass::PositiveInfinity => "'Infinity'::"@ + sql_type,
        RealClass::NegativeInfinity => "'-Infinity'::"@ + sql_type,
        RealClass::Zero => display,
        RealClass::Finite => display,
    }
}

/// A text in single quotes, cast to a type.
pub open spec fn cast_literal(s: Seq<char>, sql_type: Seq<char>) -> Seq<char> {
    "'"@ + s + "'::"@ + sql_type
}

/// A value as a PostgreSQL literal.
pub open spec fn literal(value: RowValue) -> Seq<char> {
    match value {
        RowValue::Null => "NULL"@,
        RowValue::Bool(b) => if b {
            "TRUE"@
        } else {
            "FALSE"@
        },
        RowValue::I16(v) => text::signed_decimal(v as int),
        RowValue::I32(v) => text::signed_decimal(v as int),
        RowValue::I64(v) => text::signed_decimal(v as int),
        RowValue::F32(v) => real_literal(types::class32(v.bits), v.display@, "real"@),
        RowValue::F64(v) => real_literal(types::class64(v.bits), v.display@, "double precision"@),
        RowValue::Numeric(v) => v@,
        RowValue::Text(s) => string_literal(s@),
        RowValue::Bytes(b) => "'\\x"@ + hex_bytes(b@) + "'"@,
        RowValue::Timestamp(t) => cast_literal(
            instant::timestamp_text(t.secs(), t.nanos() as nat, ' '),
            "timestamp"@,
        ),
        RowValue::TimestampTz(t) => cast_literal(
            instant::timestamp_text(t.secs(), t.nanos() as nat, ' ') + "+00:00"@,
            "timestamptz"@,
        ),
        RowValue::Date(d) => cast_literal(instant::date_text(d.day_number()), "date"@),
        RowValue::Time(t) => cast_literal(
            instant::clock_text(t.secs() as nat, t.nanos() as nat),
            "time"@,
        ),
        RowValue::Uuid(u) => cast_literal(types::uuid_text(u), "uuid"@),
        RowValue::Json(j) => string_literal(outside::json_compact(j@)) + "::jsonb"@,
    }
}

/// A floating point number as a literal of the given type.
fn format_real(class: RealClass, display: &str, sql_type: &str) -> (r: String)
    ensures
        r@ == real_literal(class, display@, sql_type@),
{
    match class {
        RealClass::NotANumber => "'NaN'::".to_owned().concat(sql_type),
        RealClass::PositiveInfinity => "'Infinity'::".to_owned().concat(sql_type),
        RealClass::NegativeInfinity => "'-Infinity'::".to_owned().concat(sql_type),
        RealClass::Zero => display.to_owned(),
        RealClass::Finite => display.to_owned(),
    }
}

/// A text in single quotes, cast to a type.
fn format_cast(s: &str, sql_type: &str) -> (r: String)
    ensures
        r@ == cast_literal(s@, sql_type@),
{
    "'".to_owned().concat(s).concat("'::").concat(sql_type)
}

/// A digit of a hexadecimal number.
fn hex_digit(d: u8) -> (r: char)
    requires
        d < 16,
    ensures
        r == types::hex_char(d as nat),
{
    if d < 10 {
        (48 + d) as char
    } else {
        (87 + d) as char
    }
}

/// Bytes as a literal.
fn format_bytes(bytes: &[u8]) -> (r: String)
    ensures
        r@ == "'\\x"@ + hex_bytes(bytes@) + "'"@,
{
    let mut out = "'\\x".to_owned();
    for i in 0..bytes.len()
        invariant
            out@ == "'\\x"@ + hex_bytes(bytes@.take(i as int)),
    {
        let byte: u8 = bytes[i];
        out.push(hex_digit(byte / 16));
        out.push(hex_digit(byte % 16));
        proof {
            assert(bytes@.take(i + 1).drop_last() =~= bytes@.take(i as int));
            reveal_with_fuel(types::hex, 3);
            assert(byte as nat / 16 % 16 == byte as nat / 16);
            assert(types::hex(byte as nat, 2) =~= seq![
                types::hex_char(byte as nat / 16),
                types::hex_char(byte as nat % 16),
            ]);
        }
    }
    assert(bytes@.take(bytes@.len() as int) =~= bytes@);
    out.push('\'');
    proof { reveal_strlit("'"); }
    out
}

/// Format a `RowValue` as a PostgreSQL literal.
pub fn format_literal(value: &RowValue) -> (r: String)
    ensures
        r@ == literal(*value),
{
    match value {
        RowValue::Null => "NULL".to_owned(),
        RowValue::Bool(b) => {
            if *b {
                "TRUE".to_owned()
            } else {
                "FALSE".to_owned()
            }
        },
        RowValue::I16(v) => text::signed_decimal_text(*v as i64),
        RowValue::I32(v) => text::signed_decimal_text(*v as i64),
        RowValue::I64(v) => text::signed_decimal_text(*v),
        RowValue::F32(v) => format_real(v.class(), v.display.as_str(), "real"),
        RowValue::F64(v) => format_real(v.class(), v.display.as_str(), "double precision"),
        RowValue::Numeric(v) => v.clone(),
        RowValue::Text(s) => escape_string_literal(s.as_str()),
        RowValue::Bytes(b) => format_bytes(b.as_slice()),
        RowValue::Timestamp(t) => format_cast(t.literal_text().as_str(), "timestamp"),
        RowValue::TimestampTz(t) => format_cast(t.literal_text_with_zone().as_str(), "timestamptz"),
        RowValue::Date(d) => format_cast(d.literal_text().as_str(), "date"),
        RowValue::Time(t) => format_cast(t.literal_text().as_str(), "time"),
        RowValue::Uuid(u) => format_cast(outside::uuid_string(*u).as_str(), "uuid"),
        RowValue::Json(j) => {
            escape_string_literal(j.compact().as_str()).concat("::jsonb")
        },
    }
}

/// The names of columns in SQL.
pub open spec fn quoted_names(columns: Seq<ColumnInfo>) -> Seq<Seq<char>> {
    columns.map_values(|c: ColumnInfo| quoted(c.name@))
}

/// A comma-separated list of the names of columns.
pub open spec fn name_list(columns: Seq<ColumnInfo>) -> Seq<char> {
    text::joined(quoted_names(columns), ", "@)
}

/// Build a comma-separated list of quoted column names.
pub fn column_list(columns: &[ColumnInfo]) -> (r: String)
    ensures
        r@ == name_list(columns@),
{
    let mut names: Vec<String> = Vec::new();
    for i in 0..columns.len()
        invariant
            text::texts(names@) == quoted_names(columns@).take(i as int),
    {
        let ghost before = names@;
        names.push(quote_identifier(columns[i].name.as_str()));
        proof {
            assert(text::texts(names@) =~= text::texts(before).push(quoted(columns@[i as int].name@)));
            assert(text::texts(names@) =~= quoted_names(columns@).take(i + 1));
        }
    }
    assert(text::texts(names@) =~= quoted_names(columns@));
    text::join(names.as_slice(), ", ")
}

/// A column as it is fetched. A number of arbitrary precision is fetched as text, under a name
/// of its own, so that the name of the column still stands for the number.
pub open spec fn fetched_column(column: ColumnInfo) -> Seq<char> {
    if column.pg_type is Numeric {
        quoted(column.name@) + "::text AS "@ + quoted(column.name@ + " as text"@)
    } else {
        quoted(column.name@)
    }
}

/// Columns as they are fetched.
pub open spec fn fetched_columns(columns: Seq<ColumnInfo>) -> Seq<Seq<char>> {
    columns.map_values(|c: ColumnInfo| fetched_column(c))
}

/// A comma-separated list of columns as they are fetched.
pub open spec fn fetch_list(columns: Seq<ColumnInfo>) -> Seq<char> {
    text::joined(fetched_columns(columns), ", "@)
}

/// Build a comma-separated list of columns as they are fetched.
pub fn build_fetch_list(columns: &[ColumnInfo]) -> (r: String)
    ensures
        r@ == fetch_list(columns@),
{
    let mut parts: Vec<String> = Vec::new();
    for i in 0..columns.len()
        invariant
            text::texts(parts@) == fetched_columns(columns@).take(i as int),
    {
        let ghost before = parts@;
        let mut part = quote_identifier(columns[i].name.as_str());
        if columns[i].pg_type == PgType::Numeric {
            let mut name = columns[i].name.clone();
            name.append(" as text");
            part.append("::text AS ");
            part.append(quote_identifier(name.as_str()).as_str());
        }
        parts.push(part);
        proof {
            assert(part@ =~= fetched_column(columns@[i as int]));
            assert(text::texts(parts@) =~= text::texts(before).push(fetched_columns(columns@)[i as int]));
            assert(text::texts(parts@) =~= fetched_columns(columns@).take(i + 1));
        }
    }
    assert(text::texts(parts@) =~= fetched_columns(columns@));
    text::join(parts.as_slice(), ", ")
}

/// Whether a column is written, given the lowercase names that are left out.
pub open spec fn is_written(columns: Seq<ColumnInfo>, exclude: Set<Seq<char>>) -> spec_fn(int) -> bool {
    |i: int| !exclude.contains(outside::lowercase_text(columns[i].name@))
}

/// The places of the columns that an INSERT names.
pub open spec fn written_columns(columns: Seq<ColumnInfo>, exclude: Set<Seq<char>>) -> Seq<int> {
    collections::picked(columns.len(), is_written(columns, exclude))
}

/// An INSERT of a row: the columns whose lowercase name is not left out, and their values.
pub open spec fn insert_statement(
    table: Seq<char>,
    columns: Seq<ColumnInfo>,
    row: Seq<RowValue>,
    exclude: Set<Seq<char>>,
) -> Seq<char> {
    let written = written_columns(columns, exclude);
    "INSERT INTO "@ + table_sql(table) + " ("@ + text::joined(
        written.map_values(|i: int| quoted(columns[i].name@)),
        ", "@,
    ) + ") VALUES ("@ + text::joined(written.map_values(|i: int| literal(row[i])), ", "@) + ");"@
}

/// Generate an INSERT statement.
pub fn generate_insert(
    table: &str,
    columns: &[ColumnInfo],
    row: &[RowValue],
    exclude_cols: &NameSet,
) -> (r: String)
    requires
        forall|i: int|
            0 <= i < columns@.len() && #[trigger] is_written(columns@, exclude_cols@)(i) ==> i < row@.len(),
    ensures
        r@ == insert_statement(table@, columns@, row@, exclude_cols@),
{
    let ghost keep = is_written(columns@, exclude_cols@);
    let ghost name_of = |i: int| quoted(columns@[i].name@);
    let ghost value_of = |i: int| literal(row@[i]);
    let mut names: Vec<String> = Vec::new();
    let mut values: Vec<String> = Vec::new();
    proof {
        assert(text::texts(names@) =~= collections::picked(0, keep).map_values(name_of));
        assert(text::texts(values@) =~= collections::picked(0, keep).map_values(value_of));
    }
    for i in 0..columns.len()
        invariant
            forall|i: int| 0 <= i < columns@.len() && #[trigger] keep(i) ==> i < row@.len(),
            keep == is_written(columns@, exclude_cols@),
            name_of == (|i: int| quoted(columns@[i].name@)),
            value_of == (|i: int| literal(row@[i])),
            text::texts(names@) == collections::picked(i as nat, keep).map_values(name_of),
            text::texts(values@) == collections::picked(i as nat, keep).map_values(value_of),
    {
        let ghost picked = collections::picked(i as nat, keep);
        let ghost names_before = names@;
        let ghost values_before = values@;
        if !exclude_cols.contains(outside::lowercase(columns[i].name.as_str()).as_str()) {
            assert(keep(i as int));
            names.push(quote_identifier(columns[i].name.as_str()));
            values.push(format_literal(&row[i]));
            proof {
                assert(text::texts(names@) =~= text::texts(names_before).push(name_of(i as int)));
                assert(text::texts(values@) =~= text::texts(values_before).push(value_of(i as int)));
                assert(picked.push(i as int).map_values(name_of) =~= picked.map_values(name_of).push(
                    name_of(i as int),
                ));
                assert(picked.push(i as int).map_values(value_of) =~= picked.map_values(value_of).push(
                    value_of(i as int),
                ));
            }
        } else {
            assert(!keep(i as int));
        }
    }
    let mut out = "INSERT INTO ".to_owned();
    out.append(format_table_name(table).as_str());
    out.append(" (");
    out.append(text::join(names.as_slice(), ", ").as_str());
    out.append(") VALUES (");
    out.append(text::join(values.as_slice(), ", ").as_str());
    out.append(");");
    out
}

/// The condition that a column has a value.
pub open spec fn condition(name: Seq<char>, value: RowValue) -> Seq<char> {
    if value is Null {
        quoted(name) + " IS NULL"@
    } else {
        quoted(name) + " = "@ + literal(value)
    }
}

/// The condition that a column has a value.
fn format_condition(name: &str, value: &RowValue) -> (r: String)
    ensures
        r@ == condition(name@, *value),
{
    let mut out = quote_identifier(name);
    if value.is_null() {
        out.append(" IS NULL");
    } else {
        out.append(" = ");
        out.append(format_literal(value).as_str());
    }
    out
}

/// Whether each key column is one of the columns, and the row has a value for it.
pub open spec fn keys_in_row(
    columns: Seq<ColumnInfo>,
    pk_cols: Seq<ColumnInfo>,
    row: Seq<RowValue>,
) -> bool {
    forall|k: int|
        #![trigger pk_cols[k]]
        0 <= k < pk_cols.len() ==> types::has_column(columns, pk_cols[k].name@) && types::column_index(
            columns,
            pk_cols[k].name@,
        ) < row.len()
}

/// The value of each key column in a row of the given columns.
pub open spec fn key_values(
    columns: Seq<ColumnInfo>,
    pk_cols: Seq<ColumnInfo>,
    row: Seq<RowValue>,
) -> Seq<RowValue> {
    Seq::new(pk_cols.len(), |k: int| row[types::column_index(columns, pk_cols[k].name@)])
}

/// The conditions that the key columns have the given values.
pub open spec fn conditions(pk_cols: Seq<ColumnInfo>, values: Seq<RowValue>) -> Seq<Seq<char>> {
    Seq::new(pk_cols.len(), |k: int| condition(pk_cols[k].name@, values[k]))
}

/// The condition that a row has the key of the given row.
pub open spec fn key_condition(
    columns: Seq<ColumnInfo>,
    pk_cols: Seq<ColumnInfo>,
    row: Seq<RowValue>,
) -> Seq<char> {
    text::joined(conditions(pk_cols, key_values(columns, pk_cols, row)), " AND "@)
}

/// The condition that a row has the key of the given row.
fn format_key_condition(columns: &[ColumnInfo], pk_cols: &[ColumnInfo], row: &[RowValue]) -> (r: String)
    requires
        keys_in_row(columns@, pk_cols@, row@),
    ensures
        r@ == key_condition(columns@, pk_cols@, row@),
{
    let ghost all = conditions(pk_cols@, key_values(columns@, pk_cols@, row@));
    let mut clauses: Vec<String> = Vec::new();
    for k in 0..pk_cols.len()
        invariant
            keys_in_row(columns@, pk_cols@, row@),
            all == conditions(pk_cols@, key_values(columns@, pk_cols@, row@)),
            text::texts(clauses@) == all.take(k as int),
    {
        let pk = &pk_cols[k];
        proof {
            assert(pk_cols@[k as int] == *pk);
            types::lemma_column_index(columns@, pk.name@);
        }
        let ghost before = clauses@;
        match types::find_column(columns, pk.name.as_str()) {
            Some(i) => {
                clauses.push(format_condition(pk.name.as_str(), &row[i]));
            },
            None => {},
        }
        proof {
            assert(text::texts(clauses@) =~= text::texts(before).push(all[k as int]));
            assert(text::texts(clauses@) =~= all.take(k + 1));
        }
    }
    assert(text::texts(clauses@) =~= all);
    text::join(clauses.as_slice(), " AND ")
}

/// An UPDATE of the modified columns of a row, found by its key.
pub open spec fn update_statement(
    table: Seq<char>,
    columns: Seq<ColumnInfo>,
    pk_cols: Seq<ColumnInfo>,
    row: Seq<RowValue>,
    modified: Seq<usize>,
) -> Seq<char> {
    "UPDATE "@ + table_sql(table) + " SET "@ + text::joined(
        modified.map_values(
            |i: usize| quoted(columns[i as int].name@) + " = "@ + literal(row[i as int]),
        ),
        ", "@,
    ) + " WHERE "@ + key_condition(columns, pk_cols, row) + ";"@
}

/// Generate an UPDATE statement.
///
/// `modified_indices` are the column indices where reference differs from target.
pub fn generate_update(
    table: &str,
    columns: &[ColumnInfo],
    pk_cols: &[ColumnInfo],
    row: &[RowValue],
    modified_indices: &[usize],
) -> (r: Option<String>)
    requires
        modified_indices@.len() > 0 ==> keys_in_row(columns@, pk_cols@, row@),
        forall|j: int|
            0 <= j < modified_indices@.len() ==> #[trigger] modified_indices@[j] < columns@.len()
                && modified_indices@[j] < row@.len(),
    ensures
        r is Some <==> modified_indices@.len() > 0,
        r matches Some(sql) ==> sql@ == update_statement(
            table@,
            columns@,
            pk_cols@,
            row@,
            modified_indices@,
        ),
{
    if modified_indices.len() == 0 {
        return None;
    }
    let ghost set_of = |i: usize| quoted(columns@[i as int].name@) + " = "@ + literal(row@[i as int]);
    let ghost all = modified_indices@.map_values(set_of);
    let mut clauses: Vec<String> = Vec::new();
    for j in 0..modified_indices.len()
        invariant
            forall|j: int|
                0 <= j < modified_indices@.len() ==> #[trigger] modified_indices@[j] < columns@.len()
                    && modified_indices@[j] < row@.len(),
            set_of == (|i: usize| quoted(columns@[i as int].name@) + " = "@ + literal(row@[i as int])),
            all == modified_indices@.map_values(set_of),
            text::texts(clauses@) == all.take(j as int),
    {
        let i: usize = modified_indices[j];
        let ghost before = clauses@;
        let mut clause = quote_identifier(columns[i].name.as_str());
        clause.append(" = ");
        clause.append(format_literal(&row[i]).as_str());
        clauses.push(clause);
        proof {
            assert(clause@ =~= set_of(i));
            assert(text::texts(clauses@) =~= text::texts(before).push(all[j as int]));
            assert(text::texts(clauses@) =~= all.take(j + 1));
        }
    }
    assert(text::texts(clauses@) =~= all);
    let mut out = "UPDATE ".to_owned();
    out.append(format_table_name(table).as_str());
    out.append(" SET ");
    out.append(text::join(clauses.as_slice(), ", ").as_str());
    out.append(" WHERE ");
    out.append(format_key_condition(columns, pk_cols, row).as_str());
    out.append(";");
    Some(out)
}

/// A DELETE of the row with a key.
pub open spec fn delete_statement(
    table: Seq<char>,
    columns: Seq<ColumnInfo>,
    pk_cols: Seq<ColumnInfo>,
    row: Seq<RowValue>,
) -> Seq<char> {
    "DELETE FROM "@ + table_sql(table) + " WHERE "@ + key_condition(columns, pk_cols, row) + ";"@
}

/// Generate a DELETE statement.
pub fn generate_delete(
    table: &str,
    columns: &[ColumnInfo],
    pk_cols: &[ColumnInfo],
    row: &[RowValue],
) -> (r: String)
    requires
        keys_in_row(columns@, pk_cols@, row@),
    ensures
        r@ == delete_statement(table@, columns@, pk_cols@, row@),
{
    let mut out = "DELETE FROM ".to_owned();
    out.append(format_table_name(table).as_str());
    out.append(" WHERE ");
    out.append(format_key_condition(columns, pk_cols, row).as_str());
    out.append(";");
    out
}

/// A SELECT of columns of a table.
pub open spec fn select_statement(table: Seq<char>, columns: Seq<ColumnInfo>) -> Seq<char> {
    "SELECT "@ + name_list(columns) + " FROM "@ + table_sql(table)
}

/// Build a SELECT query for the given columns of a table.
pub fn build_select(table: &str, columns: &[ColumnInfo]) -> (r: String)
    ensures
        r@ == select_statement(table@, columns@),
{
    let mut out = "SELECT ".to_owned();
    out.append(column_list(columns).as_str());
    out.append(" FROM ");
    out.append(format_table_name(table).as_str());
    out
}

/// A SELECT of columns of a table as they are fetched.
pub open spec fn fetch_statement(table: Seq<char>, columns: Seq<ColumnInfo>) -> Seq<char> {
    "SELECT "@ + fetch_list(columns) + " FROM "@ + table_sql(table)
}

/// Build a SELECT query for the given columns of a table as they are fetched.
pub fn build_fetch(table: &str, columns: &[ColumnInfo]) -> (r: String)
    ensures
        r@ == fetch_statement(table@, columns@),
{
    let mut out = "SELECT ".to_owned();
    out.append(build_fetch_list(columns).as_str());
    out.append(" FROM ");
    out.append(format_table_name(table).as_str());
    out
}

/// Columns without numbers of arbitrary precision are fetched as they are.
pub proof fn plain_columns_are_fetched_as_they_are(table: Seq<char>, columns: Seq<ColumnInfo>)
    requires
        forall|i: int| 0 <= i < columns.len() ==> !((#[trigger] columns[i]).pg_type is Numeric),
    ensures
        fetch_statement(table, columns) == select_statement(table, columns),
{
    assert(fetched_columns(columns) =~= quoted_names(columns));
}

/// Keys, each in parentheses, with OR between.
pub open spec fn alternatives(keys: Seq<Seq<char>>) -> Seq<char> {
    text::joined(keys.map_values(|k: Seq<char>| "("@ + k + ")"@), " OR "@)
}

/// A SELECT of the rows that have one of the given keys; each key in parentheses.
pub open spec fn lookup_statement(
    table: Seq<char>,
    columns: Seq<ColumnInfo>,
    keys: Seq<Seq<char>>,
) -> Seq<char> {
    select_statement(table, columns) + " WHERE "@ + alternatives(keys)
}

/// A SELECT of the rows that have one of the given keys, as they are fetched.
pub open spec fn fetch_by_key_statement(
    table: Seq<char>,
    columns: Seq<ColumnInfo>,
    keys: Seq<Seq<char>>,
) -> Seq<char> {
    fetch_statement(table, columns) + " WHERE "@ + alternatives(keys)
}

/// The keys of rows, as conditions.
pub open spec fn row_conditions(
    columns: Seq<ColumnInfo>,
    pk_cols: Seq<ColumnInfo>,
    rows: Seq<Row>,
) -> Seq<Seq<char>> {
    rows.map_values(|row: Row| key_condition(columns, pk_cols, row@))
}

/// The keys of rows, each in parentheses, with OR between.
fn build_row_alternatives(columns: &[ColumnInfo], pk_cols: &[ColumnInfo], rows: &[Row]) -> (r: String)
    requires
        forall|i: int| 0 <= i < rows@.len() ==> keys_in_row(columns@, pk_cols@, (#[trigger] rows@[i])@),
    ensures
        r@ == alternatives(row_conditions(columns@, pk_cols@, rows@)),
{
    let ghost all = row_conditions(columns@, pk_cols@, rows@).map_values(
        |k: Seq<char>| "("@ + k + ")"@,
    );
    let mut clauses: Vec<String> = Vec::new();
    for i in 0..rows.len()
        invariant
            forall|i: int| 0 <= i < rows@.len() ==> keys_in_row(columns@, pk_cols@, (#[trigger] rows@[i])@),
            all == row_conditions(columns@, pk_cols@, rows@).map_values(|k: Seq<char>| "("@ + k + ")"@),
            text::texts(clauses@) == all.take(i as int),
    {
        let ghost before = clauses@;
        let mut clause = "(".to_owned();
        clause.append(format_key_condition(columns, pk_cols, rows[i].as_slice()).as_str());
        clause.append(")");
        clauses.push(clause);
        proof {
            assert(clause@ =~= all[i as int]);
            assert(text::texts(clauses@) =~= text::texts(before).push(all[i as int]));
            assert(text::texts(clauses@) =~= all.take(i + 1));
        }
    }
    assert(text::texts(clauses@) =~= all);
    text::join(clauses.as_slice(), " OR ")
}

/// Build a SELECT query for the rows of a table that have one of the keys of the given rows, as
/// they are fetched. The rows have columns of their own.
pub fn build_lookup_query(
    table: &str,
    columns: &[ColumnInfo],
    row_columns: &[ColumnInfo],
    pk_cols: &[ColumnInfo],
    rows: &[Row],
) -> (r: String)
    requires
        forall|i: int| 0 <= i < rows@.len() ==> keys_in_row(row_columns@, pk_cols@, (#[trigger] rows@[i])@),
    ensures
        r@ == fetch_by_key_statement(table@, columns@, row_conditions(row_columns@, pk_cols@, rows@)),
{
    let mut out = build_fetch(table, columns);
    out.append(" WHERE ");
    out.append(build_row_alternatives(row_columns, pk_cols, rows).as_str());
    out
}

/// Build a SELECT query to retrieve matching rows from a target table,
/// given a chunk of reference rows and their PK values.
///
/// Produces: `SELECT col1, col2, ... FROM target WHERE (pk1 = v1 AND pk2 = v2) OR ...`
pub fn build_check_query(
    table: &str,
    columns: &[ColumnInfo],
    pk_cols: &[ColumnInfo],
    rows: &[Row],
) -> (r: String)
    requires
        forall|i: int| 0 <= i < rows@.len() ==> keys_in_row(columns@, pk_cols@, (#[trigger] rows@[i])@),
    ensures
        r@ == lookup_statement(table@, columns@, row_conditions(columns@, pk_cols@, rows@)),
{
    let mut out = build_select(table, columns);
    out.append(" WHERE ");
    out.append(build_row_alternatives(columns, pk_cols, rows).as_str());
    out
}

/// The condition that a column is in a range, whose bounds are the first two parameters.
pub open spec fn range_condition(column: Seq<char>) -> Seq<char> {
    quoted(column) + " >= $1 AND "@ + quoted(column) + " < $2"@
}

/// The condition that a column is in a range, whose bounds are the first two parameters.
pub fn build_range_condition(column: &str) -> (r: String)
    ensures
        r@ == range_condition(column@),
{
    let name = quote_identifier(column);
    let mut out = name.clone();
    out.append(" >= $1 AND ");
    out.append(name.as_str());
    out.append(" < $2");
    out
}

/// The condition that rows are in a range of a column, where one is given, and that a further
/// condition holds of them, where one is given.
pub open spec fn where_clause(range: Option<Seq<char>>, filter: Option<Seq<char>>) -> Seq<char> {
    match (range, filter) {
        (Some(column), Some(f)) => " WHERE "@ + range_condition(column) + " AND ("@ + f + ")"@,
        (Some(column), None) => " WHERE "@ + range_condition(column),
        (None, Some(f)) => " WHERE ("@ + f + ")"@,
        (None, None) => Seq::empty(),
    }
}

/// The condition that rows are in a range of a column, where one is given, and that a further
/// condition holds of them, where one is given.
pub fn build_where_clause(range: Option<&str>, filter: Option<&str>) -> (r: String)
    ensures
        r@ == where_clause(chunk_strategy::text_of(range), chunk_strategy::text_of(filter)),
{
    match (range, filter) {
        (Some(column), Some(f)) => {
            let mut out = " WHERE ".to_owned();
            out.append(build_range_condition(column).as_str());
            out.append(" AND (");
            out.append(f);
            out.append(")");
            out
        },
        (Some(column), None) => {
            let mut out = " WHERE ".to_owned();
            out.append(build_range_condition(column).as_str());
            out
        },
        (None, Some(f)) => {
            let mut out = " WHERE (".to_owned();
            out.append(f);
            out.append(")");
            out
        },
        (None, None) => String::new(),
    }
}

/// A query for the hash and the key of rows, in the order of their keys. Where a column is
/// given, the rows are those in a range of it; where a condition is given, those of which it
/// holds.
pub open spec fn hash_statement(
    table: Seq<char>,
    columns: Seq<ColumnInfo>,
    pk_cols: Seq<ColumnInfo>,
    range: Option<Seq<char>>,
    filter: Option<Seq<char>>,
) -> Seq<char> {
    "SELECT md5(ROW("@ + name_list(columns) + ")::text), "@ + fetch_list(pk_cols) + " FROM "@
        + table_sql(table) + where_clause(range, filter) + " ORDER BY "@ + name_list(pk_cols)
}

/// Build a query for the hash and the key of rows, in the order of their keys. Where a column is
/// given, the rows are those in a range of it; where a condition is given, those of which it
/// holds.
pub fn build_hash_query(
    table: &str,
    columns: &[ColumnInfo],
    pk_cols: &[ColumnInfo],
    range: Option<&str>,
    filter: Option<&str>,
) -> (r: String)
    ensures
        r@ == hash_statement(
            table@,
            columns@,
            pk_cols@,
            chunk_strategy::text_of(range),
            chunk_strategy::text_of(filter),
        ),
{
    let mut out = "SELECT md5(ROW(".to_owned();
    out.append(column_list(columns).as_str());
    out.append(")::text), ");
    out.append(build_fetch_list(pk_cols).as_str());
    out.append(" FROM ");
    out.append(format_table_name(table).as_str());
    out.append(build_where_clause(range, filter).as_str());
    out.append(" ORDER BY ");
    out.append(column_list(pk_cols).as_str());
    out
}

/// A query for rows in a range of a column, in the order of their keys. Where a condition is
/// given, the rows are those of which it holds.
pub open spec fn range_rows_statement(
    table: Seq<char>,
    columns: Seq<ColumnInfo>,
    pk_cols: Seq<ColumnInfo>,
    column: Seq<char>,
    filter: Option<Seq<char>>,
) -> Seq<char> {
    fetch_statement(table, columns) + where_clause(Some(column), filter) + " ORDER BY "@ + name_list(pk_cols)
}

/// Build a query for rows in a range of a column, in the order of their keys. Where a condition
/// is given, the rows are those of which it holds.
pub fn build_range_rows_query(
    table: &str,
    columns: &[ColumnInfo],
    pk_cols: &[ColumnInfo],
    column: &str,
    filter: Option<&str>,
) -> (r: String)
    ensures
        r@ == range_rows_statement(table@, columns@, pk_cols@, column@, chunk_strategy::text_of(filter)),
{
    let mut out = build_fetch(table, columns);
    out.append(build_where_clause(Some(column), filter).as_str());
    out.append(" ORDER BY ");
    out.append(column_list(pk_cols).as_str());
    out
}

/// Build a SELECT query for PK-only columns from a table (used by delete sync).
pub fn build_pk_select(table: &str, pk_cols: &[ColumnInfo]) -> (r: String)
    ensures
        r@ == select_statement(table@, pk_cols@),
{
    build_select(table, pk_cols)
}

/// The keys of rows that hold nothing but the key columns, as conditions.
pub open spec fn bare_conditions(pk_cols: Seq<ColumnInfo>, rows: Seq<Row>) -> Seq<Seq<char>> {
    rows.map_values(|row: Row| text::joined(conditions(pk_cols, row@), " AND "@))
}

/// Keys of rows that hold nothing but the key columns, each in parentheses, with OR between.
fn build_key_alternatives(pk_cols: &[ColumnInfo], rows: &[Row]) -> (r: String)
    requires
        forall|i: int| 0 <= i < rows@.len() ==> pk_cols@.len() <= (#[trigger] rows@[i])@.len(),
    ensures
        r@ == alternatives(bare_conditions(pk_cols@, rows@)),
{
    let ghost all = bare_conditions(pk_cols@, rows@).map_values(|k: Seq<char>| "("@ + k + ")"@);
    let mut clauses: Vec<String> = Vec::new();
    for i in 0..rows.len()
        invariant
            forall|i: int| 0 <= i < rows@.len() ==> pk_cols@.len() <= (#[trigger] rows@[i])@.len(),
            all == bare_conditions(pk_cols@, rows@).map_values(|k: Seq<char>| "("@ + k + ")"@),
            text::texts(clauses@) == all.take(i as int),
    {
        let row = &rows[i];
        let ghost parts = conditions(pk_cols@, row@);
        let mut keys: Vec<String> = Vec::new();
        for k in 0..pk_cols.len()
            invariant
                pk_cols@.len() <= row@.len(),
                parts == conditions(pk_cols@, row@),
                text::texts(keys@) == parts.take(k as int),
        {
            let ghost before = keys@;
            keys.push(format_condition(pk_cols[k].name.as_str(), &row[k]));
            proof {
                assert(text::texts(keys@) =~= text::texts(before).push(parts[k as int]));
                assert(text::texts(keys@) =~= parts.take(k + 1));
            }
        }
        assert(text::texts(keys@) =~= parts);
        let ghost before = clauses@;
        let mut clause = "(".to_owned();
        clause.append(text::join(keys.as_slice(), " AND ").as_str());
        clause.append(")");
        clauses.push(clause);
        proof {
            assert(clause@ =~= all[i as int]);
            assert(text::texts(clauses@) =~= text::texts(before).push(all[i as int]));
            assert(text::texts(clauses@) =~= all.take(i + 1));
        }
    }
    assert(text::texts(clauses@) =~= all);
    text::join(clauses.as_slice(), " OR ")
}

/// Build a check query for the delete sync: checks which PK values exist in the reference table.
pub fn build_delete_check_query(
    reference_table: &str,
    pk_cols: &[ColumnInfo],
    rows: &[Row],
) -> (r: String)
    requires
        forall|i: int| 0 <= i < rows@.len() ==> pk_cols@.len() <= (#[trigger] rows@[i])@.len(),
    ensures
        r@ == lookup_statement(reference_table@, pk_cols@, bare_conditions(pk_cols@, rows@)),
{
    let mut out = build_select(reference_table, pk_cols);
    out.append(" WHERE ");
    out.append(build_key_alternatives(pk_cols, rows).as_str());
    out
}

/// A query for the keys of the reference that are among those of the given rows. Where a
/// condition is given, it has to hold of the rows of the reference too.
pub open spec fn reference_keys_statement(
    reference_table: Seq<char>,
    pk_cols: Seq<ColumnInfo>,
    rows: Seq<Row>,
    filter: Option<Seq<char>>,
) -> Seq<char> {
    let keys = bare_conditions(pk_cols, rows);
    match filter {
        Some(f) => fetch_statement(reference_table, pk_cols) + " WHERE ("@ + alternatives(keys) + ") AND ("@ + f
            + ")"@,
        None => fetch_by_key_statement(reference_table, pk_cols, keys),
    }
}

/// Build a query for the keys of the reference that are among those of the given rows. Where a
/// condition is given, it has to hold of the rows of the reference too.
pub fn build_reference_keys_query(
    reference_table: &str,
    pk_cols: &[ColumnInfo],
    rows: &[Row],
    filter: Option<&str>,
) -> (r: String)
    requires
        forall|i: int| 0 <= i < rows@.len() ==> pk_cols@.len() <= (#[trigger] rows@[i])@.len(),
    ensures
        r@ == reference_keys_statement(reference_table@, pk_cols@, rows@, chunk_strategy::text_of(filter)),
{
    let keys = build_key_alternatives(pk_cols, rows);
    let mut out = build_fetch(reference_table, pk_cols);
    match filter {
        Some(f) => {
            out.append(" WHERE (");
            out.append(keys.as_str());
            out.append(") AND (");
            out.append(f);
            out.append(")");
        },
        None => {
            out.append(" WHERE ");
            out.append(keys.as_str());
        },
    }
    out
}

/// A text in which each `q` stands doubled, with the pairs made single again; none where a `q`
/// stands alone.
pub open spec fn undoubled(s: Seq<char>, q: char) -> Option<Seq<char>>
    decreases s.len(),
{
    if s.len() == 0 {
        Some(s)
    } else if s[0] != q {
        match undoubled(s.drop_first(), q) {
            Some(rest) => Some(seq![s[0]] + rest),
            None => None,
        }
    } else if s.len() >= 2 && s[1] == q {
        match undoubled(s.skip(2), q) {
            Some(rest) => Some(seq![q] + rest),
            None => None,
        }
    } else {
        None
    }
}

/// The name that an identifier in SQL stands for.
pub open spec fn read_identifier(sql: Seq<char>) -> Option<Seq<char>> {
    if sql.len() >= 2 && sql[0] == '"' && sql.last() == '"' {
        undoubled(sql.subrange(1, sql.len() - 1), '"')
    } else {
        Some(sql)
    }
}

/// What the body of a literal with escapes stands for: a quote and a backslash are each written
/// doubled.
pub open spec fn unescaped(s: Seq<char>) -> Option<Seq<char>>
    decreases s.len(),
{
    if s.len() == 0 {
        Some(s)
    } else if s[0] != '\'' && s[0] != '\\' {
        match unescaped(s.drop_first()) {
            Some(rest) => Some(seq![s[0]] + rest),
            None => None,
        }
    } else if s.len() >= 2 && s[1] == s[0] {
        match unescaped(s.skip(2)) {
            Some(rest) => Some(seq![s[0]] + rest),
            None => None,
        }
    } else {
        None
    }
}

/// The text that a string literal stands for.
pub open spec fn read_string(sql: Seq<char>) -> Option<Seq<char>> {
    if sql.len() >= 3 && sql[0] == 'E' && sql[1] == '\'' && sql.last() == '\'' {
        unescaped(sql.subrange(2, sql.len() - 1))
    } else if sql.len() >= 2 && sql[0] == '\'' && sql.last() == '\'' {
        undoubled(sql.subrange(1, sql.len() - 1), '\'')
    } else {
        None
    }
}

proof fn lemma_undoubled_replaced(s: Seq<char>, q: char)
    ensures
        undoubled(text::replaced(s, q, seq![q, q]), q) == Some(s),
    decreases s.len(),
{
    if s.len() > 0 {
        let rest = text::replaced(s.drop_first(), q, seq![q, q]);
        lemma_undoubled_replaced(s.drop_first(), q);
        assert(s =~= seq![s[0]] + s.drop_first());
        if s[0] == q {
            assert((seq![q, q] + rest).skip(2) =~= rest);
        } else {
            assert((seq![s[0]] + rest).drop_first() =~= rest);
        }
    } else {
        assert(text::replaced(s, q, seq![q, q]) =~= s);
    }
}

proof fn lemma_unescaped_replaced(s: Seq<char>)
    ensures
        unescaped(
            text::replaced(text::replaced(s, '\'', seq!['\'', '\'']), '\\', seq!['\\', '\\']),
        ) == Some(s),
    decreases s.len(),
{
    let quotes = seq!['\'', '\''];
    let slashes = seq!['\\', '\\'];
    if s.len() > 0 {
        let inner = text::replaced(s.drop_first(), '\'', quotes);
        let rest = text::replaced(inner, '\\', slashes);
        lemma_unescaped_replaced(s.drop_first());
        assert(s =~= seq![s[0]] + s.drop_first());
        if s[0] == '\'' {
            let once = quotes + inner;
            assert(once.drop_first() =~= seq!['\''] + inner);
            assert((seq!['\''] + inner).drop_first() =~= inner);
            assert(text::replaced(seq!['\''] + inner, '\\', slashes) == seq!['\''] + rest);
            assert(text::replaced(once, '\\', slashes) == seq!['\''] + (seq!['\''] + rest));
            assert(text::replaced(once, '\\', slashes) =~= quotes + rest);
            assert((quotes + rest).skip(2) =~= rest);
        } else {
            let once = seq![s[0]] + inner;
            assert(once.drop_first() =~= inner);
            if s[0] == '\\' {
                assert((slashes + rest).skip(2) =~= rest);
            } else {
                assert((seq![s[0]] + rest).drop_first() =~= rest);
            }
        }
    } else {
        assert(text::replaced(s, '\'', quotes) =~= s);
        assert(text::replaced(s, '\\', slashes) =~= s);
    }
}

/// A quoted identifier stands for the name that was quoted, whatever it holds.
pub proof fn identifier_reads_back(name: Seq<char>)
    ensures
        read_identifier(quoted(name)) == Some(name),
{
    reveal_strlit("\"");
    reveal_strlit("\"\"");
    if needs_quoting(name) {
        let body = text::replaced(name, '"', "\"\""@);
        assert("\"\""@ =~= seq!['"', '"']);
        lemma_undoubled_replaced(name, '"');
        assert(quoted(name).subrange(1, quoted(name).len() - 1) =~= body);
    } else {
        assert(is_plain(name[0]));
    }
}

/// Two identifiers that are written alike are the same name.
pub proof fn identifiers_do_not_collide(a: Seq<char>, b: Seq<char>)
    requires
        quoted(a) == quoted(b),
    ensures
        a == b,
{
    identifier_reads_back(a);
    identifier_reads_back(b);
}

/// A string literal stands for the text that was escaped, whatever it holds.
pub proof fn string_literal_reads_back(s: Seq<char>)
    ensures
        read_string(string_literal(s)) == Some(s),
{
    reveal_strlit("'");
    reveal_strlit("''");
    reveal_strlit("E'");
    reveal_strlit("\\\\");
    let quotes = seq!['\'', '\''];
    let slashes = seq!['\\', '\\'];
    assert("''"@ =~= quotes);
    assert("\\\\"@ =~= slashes);
    let sql = string_literal(s);
    if s.contains('\\') {
        let body = text::replaced(text::replaced(s, '\'', quotes), '\\', slashes);
        lemma_unescaped_replaced(s);
        assert(sql.subrange(2, sql.len() - 1) =~= body);
    } else {
        lemma_undoubled_replaced(s, '\'');
        assert(sql.subrange(1, sql.len() - 1) =~= text::replaced(s, '\'', quotes));
    }
}

/// Two text values that are written alike are the same text.
pub proof fn string_literals_do_not_collide(a: Seq<char>, b: Seq<char>)
    requires
        string_literal(a) == string_literal(b),
    ensures
        a == b,
{
    string_literal_reads_back(a);
    string_literal_reads_back(b);
}

} // verus!
