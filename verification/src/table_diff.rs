//! INSERT and UPDATE statements for the rows of one table.

use vstd::prelude::*;

use crate::chunk_strategy;
use crate::chunk_strategy::ChunkBounds;
use crate::collections;
use crate::collections::{NameSet, TextMap};
use crate::config;
use crate::error::DataDiffError;
use crate::instant;
use crate::instant::Timestamp;
use crate::metadata;
use crate::outside;
use crate::row_keys;
use crate::sql_gen;
use crate::text;
use crate::types;
use crate::types::{
    ChunkStrategy, ColumnInfo, DiffStats, Row, RowValue, TableAnalysis, TableDiffStatus,
};

verus! {

/// Whether a target row has the key of a reference row.
pub open spec fn same_key(
    target_row: Seq<RowValue>,
    target_columns: Seq<ColumnInfo>,
    ref_row: Seq<RowValue>,
    ref_columns: Seq<ColumnInfo>,
    pk_cols: Seq<ColumnInfo>,
) -> bool {
    forall|k: int|
        #![trigger pk_cols[k]]
        0 <= k < pk_cols.len() ==> types::values_equal(
            ref_row[types::column_index(ref_columns, pk_cols[k].name@)],
            target_row[types::column_index(target_columns, pk_cols[k].name@)],
        )
}

/// Whether a target row has the key of a reference row.
fn has_same_key(
    target_row: &Row,
    target_columns: &[ColumnInfo],
    ref_row: &Row,
    ref_columns: &[ColumnInfo],
    pk_cols: &[ColumnInfo],
) -> (r: bool)
    requires
        sql_gen::keys_in_row(target_columns@, pk_cols@, target_row@),
        sql_gen::keys_in_row(ref_columns@, pk_cols@, ref_row@),
    ensures
        r == same_key(target_row@, target_columns@, ref_row@, ref_columns@, pk_cols@),
{
    for k in 0..pk_cols.len()
        invariant
            sql_gen::keys_in_row(target_columns@, pk_cols@, target_row@),
            sql_gen::keys_in_row(ref_columns@, pk_cols@, ref_row@),
            forall|j: int|
                #![trigger pk_cols@[j]]
                0 <= j < k ==> types::values_equal(
                    ref_row@[types::column_index(ref_columns@, pk_cols@[j].name@)],
                    target_row@[types::column_index(target_columns@, pk_cols@[j].name@)],
                ),
    {
        let name = pk_cols[k].name.as_str();
        let ghost pk = pk_cols@[k as int];
        if let Some(i) = types::find_column(ref_columns, name) {
            if let Some(j) = types::find_column(target_columns, name) {
                if !ref_row[i].same(&target_row[j]) {
                    return false;
                }
            }
        }
    }
    true
}

/// The place of the first target row that has the key of a reference row; the number of rows
/// where there is none.
pub open spec fn match_index(
    target_rows: Seq<Row>,
    target_columns: Seq<ColumnInfo>,
    ref_row: Seq<RowValue>,
    ref_columns: Seq<ColumnInfo>,
    pk_cols: Seq<ColumnInfo>,
) -> int
    decreases target_rows.len(),
{
    if target_rows.len() == 0 || same_key(
        target_rows[0]@,
        target_columns,
        ref_row,
        ref_columns,
        pk_cols,
    ) {
        0
    } else {
        1 + match_index(target_rows.drop_first(), target_columns, ref_row, ref_columns, pk_cols)
    }
}

/// The row at `match_index` has the key, and none before it has.
pub proof fn lemma_match_index(
    target_rows: Seq<Row>,
    target_columns: Seq<ColumnInfo>,
    ref_row: Seq<RowValue>,
    ref_columns: Seq<ColumnInfo>,
    pk_cols: Seq<ColumnInfo>,
)
    ensures
        ({
            let m = match_index(target_rows, target_columns, ref_row, ref_columns, pk_cols);
            &&& 0 <= m <= target_rows.len()
            &&& m < target_rows.len() ==> same_key(
                target_rows[m]@,
                target_columns,
                ref_row,
                ref_columns,
                pk_cols,
            )
            &&& forall|i: int|
                0 <= i < m ==> !same_key(
                    (#[trigger] target_rows[i])@,
                    target_columns,
                    ref_row,
                    ref_columns,
                    pk_cols,
                )
        }),
    decreases target_rows.len(),
{
    if target_rows.len() > 0 && !same_key(target_rows[0]@, target_columns, ref_row, ref_columns, pk_cols) {
        let rest = target_rows.drop_first();
        lemma_match_index(rest, target_columns, ref_row, ref_columns, pk_cols);
        let m = match_index(target_rows, target_columns, ref_row, ref_columns, pk_cols);
        assert forall|i: int| 0 <= i < m implies !same_key(
            (#[trigger] target_rows[i])@,
            target_columns,
            ref_row,
            ref_columns,
            pk_cols,
        ) by {
            if i > 0 {
                assert(rest[i - 1] == target_rows[i]);
            }
        }
    }
}

/// Find a row in `target_rows` that matches `ref_row` by PK values.
pub fn find_row_by_pk<'a>(
    target_rows: &'a [Row],
    target_columns: &[ColumnInfo],
    ref_row: &Row,
    ref_columns: &[ColumnInfo],
    pk_cols: &[ColumnInfo],
) -> (r: Option<&'a Row>)
    requires
        sql_gen::keys_in_row(ref_columns@, pk_cols@, ref_row@),
        forall|i: int|
            0 <= i < target_rows@.len() ==> sql_gen::keys_in_row(
                target_columns@,
                pk_cols@,
                (#[trigger] target_rows@[i])@,
            ),
    ensures
        ({
            let m = match_index(target_rows@, target_columns@, ref_row@, ref_columns@, pk_cols@);
            &&& r is Some <==> m < target_rows@.len()
            &&& r matches Some(row) ==> *row == target_rows@[m]
        }),
{
    assert(target_rows@.skip(0) =~= target_rows@);
    for i in 0..target_rows.len()
        invariant
            sql_gen::keys_in_row(ref_columns@, pk_cols@, ref_row@),
            forall|i: int|
                0 <= i < target_rows@.len() ==> sql_gen::keys_in_row(
                    target_columns@,
                    pk_cols@,
                    (#[trigger] target_rows@[i])@,
                ),
            match_index(target_rows@, target_columns@, ref_row@, ref_columns@, pk_cols@) == i + match_index(
                target_rows@.skip(i as int),
                target_columns@,
                ref_row@,
                ref_columns@,
                pk_cols@,
            ),
    {
        if has_same_key(&target_rows[i], target_columns, ref_row, ref_columns, pk_cols) {
            return Some(&target_rows[i]);
        }
        assert(target_rows@.skip(i as int).drop_first() =~= target_rows@.skip(i + 1));
    }
    None
}

/// Whether a column of two rows differs, and is not to be ignored.
pub open spec fn is_modified(
    ref_row: Seq<RowValue>,
    target_row: Seq<RowValue>,
    ref_columns: Seq<ColumnInfo>,
    target_columns: Seq<ColumnInfo>,
    ignore: Set<Seq<char>>,
) -> spec_fn(int) -> bool {
    |i: int|
        {
            &&& !ignore.contains(outside::lowercase_text(ref_columns[i].name@))
            &&& types::has_column(target_columns, ref_columns[i].name@)
            &&& !types::values_equal(
                ref_row[i],
                target_row[types::column_index(target_columns, ref_columns[i].name@)],
            )
        }
}

/// Whether rows have a value for each column that is compared: one that is not to be ignored,
/// and that both tables have.
pub open spec fn compared_values_given(
    ref_row: Seq<RowValue>,
    target_row: Seq<RowValue>,
    ref_columns: Seq<ColumnInfo>,
    target_columns: Seq<ColumnInfo>,
    ignore: Set<Seq<char>>,
) -> bool {
    forall|i: int|
        #![trigger ref_columns[i]]
        0 <= i < ref_columns.len() && !ignore.contains(outside::lowercase_text(ref_columns[i].name@))
            && types::has_column(target_columns, ref_columns[i].name@) ==> i < ref_row.len() && types::column_index(
            target_columns,
            ref_columns[i].name@,
        ) < target_row.len()
}

/// The places of the columns in which two rows differ.
pub open spec fn modified_columns(
    ref_row: Seq<RowValue>,
    target_row: Seq<RowValue>,
    ref_columns: Seq<ColumnInfo>,
    target_columns: Seq<ColumnInfo>,
    ignore: Set<Seq<char>>,
) -> Seq<usize> {
    collections::picked(
        ref_columns.len(),
        is_modified(ref_row, target_row, ref_columns, target_columns, ignore),
    ).map_values(|i: int| i as usize)
}

/// Compare two rows and return the indices of columns that differ.
/// Ignores columns in `columns_to_ignore`.
pub fn find_modified_columns(
    ref_row: &Row,
    target_row: &Row,
    ref_columns: &[ColumnInfo],
    target_columns: &[ColumnInfo],
    columns_to_ignore: &NameSet,
) -> (r: Vec<usize>)
    requires
        compared_values_given(ref_row@, target_row@, ref_columns@, target_columns@, columns_to_ignore@),
    ensures
        r@ == modified_columns(
            ref_row@,
            target_row@,
            ref_columns@,
            target_columns@,
            columns_to_ignore@,
        ),
{
    let ghost keep = is_modified(
        ref_row@,
        target_row@,
        ref_columns@,
        target_columns@,
        columns_to_ignore@,
    );
    let ghost number = |i: int| i as usize;
    let mut modified: Vec<usize> = Vec::new();
    assert(modified@ =~= collections::picked(0, keep).map_values(number));
    for i in 0..ref_columns.len()
        invariant
            compared_values_given(ref_row@, target_row@, ref_columns@, target_columns@, columns_to_ignore@),
            number == (|i: int| i as usize),
            keep == is_modified(
                ref_row@,
                target_row@,
                ref_columns@,
                target_columns@,
                columns_to_ignore@,
            ),
            modified@ == collections::picked(i as nat, keep).map_values(number),
    {
        let ghost before = collections::picked(i as nat, keep);
        let name = ref_columns[i].name.as_str();
        let ghost column = ref_columns@[i as int];
        if !columns_to_ignore.contains(outside::lowercase(name).as_str()) {
            match types::find_column(target_columns, name) {
                Some(j) => {
                    if !ref_row[i].same(&target_row[j]) {
                        assert(keep(i as int));
                        modified.push(i);
                        assert(before.push(i as int).map_values(number) =~= before.map_values(number).push(i));
                    } else {
                        assert(!keep(i as int));
                    }
                },
                None => {
                    assert(!keep(i as int));
                },
            }
        } else {
            assert(!keep(i as int));
        }
    }
    modified
}

/// The lines that start the statements for a table.
pub open spec fn header(table: Seq<char>) -> Seq<char> {
    "-- ----------------------------------------------------------------\n-- Data diff for table: "@
        + config::table_part(table)
        + "\n-- ----------------------------------------------------------------\n"@
}

/// The lines that start the statements for a table.
pub fn write_header(table_name: &str) -> (r: String)
    ensures
        r@ == header(table_name@),
{
    let (_, table) = config::parse_table_name(table_name);
    let mut out =
        "-- ----------------------------------------------------------------\n-- Data diff for table: ".to_owned();
    out.append(table);
    out.append("\n-- ----------------------------------------------------------------\n");
    out
}

/// A value in the form in which it is debugged: its kind, and in parentheses its value.
pub open spec fn tagged(kind: Seq<char>, value: Seq<char>) -> Seq<char> {
    kind + "("@ + value + ")"@
}

/// A value in the form in which it is debugged: its kind, and in parentheses its value.
fn write_tagged(kind: &str, value: &str) -> (r: String)
    ensures
        r@ == tagged(kind@, value@),
{
    let mut out = kind.to_owned();
    out.append("(");
    out.append(value);
    out.append(")");
    out
}

/// The decimal texts of bytes.
pub open spec fn byte_numbers(bytes: Seq<u8>) -> Seq<Seq<char>> {
    bytes.map_values(|b: u8| text::decimal(b as nat))
}

/// The text of a value, before it becomes a part of a key.
pub open spec fn raw_text(value: RowValue) -> Seq<char> {
    match value {
        RowValue::Null => "NULL"@,
        RowValue::I16(v) => text::signed_decimal(v as int),
        RowValue::I32(v) => text::signed_decimal(v as int),
        RowValue::I64(v) => text::signed_decimal(v as int),
        RowValue::Text(v) => v@,
        RowValue::Uuid(v) => types::uuid_text(v),
        RowValue::Bool(v) => tagged("Bool"@, if v { "true"@ } else { "false"@ }),
        RowValue::F32(v) => tagged("F32"@, v.debug@),
        RowValue::F64(v) => tagged("F64"@, v.debug@),
        RowValue::Bytes(v) => tagged("Bytes"@, "["@ + text::joined(byte_numbers(v@), ", "@) + "]"@),
        RowValue::Timestamp(v) => tagged(
            "Timestamp"@,
            instant::timestamp_text(v.secs(), v.nanos() as nat, 'T'),
        ),
        RowValue::TimestampTz(v) => tagged(
            "TimestampTz"@,
            instant::timestamp_text(v.secs(), v.nanos() as nat, 'T') + "Z"@,
        ),
        RowValue::Date(v) => tagged("Date"@, instant::date_text(v.day_number())),
        RowValue::Time(v) => tagged("Time"@, instant::clock_text(v.secs() as nat, v.nanos() as nat)),
        RowValue::Json(v) => tagged("Json"@, outside::json_debug(v@)),
        RowValue::Numeric(v) => tagged("Numeric"@, outside::string_debug(v@)),
    }
}

/// A text with a backslash before each backslash and each bar.
pub open spec fn escaped(s: Seq<char>) -> Seq<char>
    decreases s.len(),
{
    if s.len() == 0 {
        Seq::empty()
    } else if s[0] == '\\' || s[0] == '|' {
        seq!['\\', s[0]] + escaped(s.drop_first())
    } else {
        seq![s[0]] + escaped(s.drop_first())
    }
}

/// A text with a backslash before each backslash and each bar.
fn escape(s: &str) -> (r: String)
    ensures
        r@ == escaped(s@),
{
    let chars = text::chars_of(s);
    let mut out = String::new();
    assert(chars@.skip(0) =~= s@);
    for i in 0..chars.len()
        invariant
            chars@ == s@,
            out@ + escaped(chars@.skip(i as int)) == escaped(s@),
    {
        let ghost before = out@;
        let ghost rest = chars@.skip(i as int);
        if chars[i] == '\\' || chars[i] == '|' {
            out.push('\\');
            out.push(chars[i]);
            assert(out@ =~= before + seq!['\\', chars@[i as int]]);
        } else {
            out.push(chars[i]);
            assert(out@ =~= before + seq![chars@[i as int]]);
        }
        proof {
            assert(rest[0] == chars@[i as int]);
            assert(rest.drop_first() =~= chars@.skip(i + 1));
            assert(out@ + escaped(chars@.skip(i + 1)) =~= before + escaped(rest));
        }
    }
    assert(chars@.skip(chars@.len() as int) =~= Seq::<char>::empty());
    assert(out@ + escaped(chars@.skip(chars@.len() as int)) =~= out@);
    out
}

/// The text of a value as a part of a key, in which no bar stands without a backslash before it.
/// The text `NULL` is told apart from a null by a backslash.
pub open spec fn key_text(value: RowValue) -> Seq<char> {
    if value is Null {
        "NULL"@
    } else if raw_text(value) == "NULL"@ {
        "\\NULL"@
    } else {
        escaped(raw_text(value))
    }
}

/// The text of a value as a part of a key.
fn value_key_text(value: &RowValue) -> (r: String)
    ensures
        r@ == key_text(*value),
{
    if value.is_null() {
        "NULL".to_owned()
    } else {
        let raw = value_raw_text(value);
        if text::same_text(raw.as_str(), "NULL") {
            "\\NULL".to_owned()
        } else {
            escape(raw.as_str())
        }
    }
}

/// The text of a value, before it becomes a part of a key.
fn value_raw_text(value: &RowValue) -> (r: String)
    ensures
        r@ == raw_text(*value),
{
    match value {
        RowValue::Null => "NULL".to_owned(),
        RowValue::I16(v) => text::signed_decimal_text(*v as i64),
        RowValue::I32(v) => text::signed_decimal_text(*v as i64),
        RowValue::I64(v) => text::signed_decimal_text(*v),
        RowValue::Text(v) => v.clone(),
        RowValue::Uuid(v) => outside::uuid_string(*v),
        RowValue::Bool(v) => {
            if *v {
                write_tagged("Bool", "true")
            } else {
                write_tagged("Bool", "false")
            }
        },
        RowValue::F32(v) => write_tagged("F32", v.debug.as_str()),
        RowValue::F64(v) => write_tagged("F64", v.debug.as_str()),
        RowValue::Bytes(v) => {
            let mut numbers: Vec<String> = Vec::new();
            for i in 0..v.len()
                invariant
                    text::texts(numbers@) == byte_numbers(v@).take(i as int),
            {
                let ghost before = numbers@;
                numbers.push(text::decimal_text(v[i] as u64));
                proof {
                    assert(text::texts(numbers@) =~= text::texts(before).push(byte_numbers(v@)[i as int]));
                    assert(text::texts(numbers@) =~= byte_numbers(v@).take(i + 1));
                }
            }
            assert(text::texts(numbers@) =~= byte_numbers(v@));
            let mut list = "[".to_owned();
            list.append(text::join(numbers.as_slice(), ", ").as_str());
            list.append("]");
            write_tagged("Bytes", list.as_str())
        },
        RowValue::Timestamp(v) => write_tagged("Timestamp", v.key_text().as_str()),
        RowValue::TimestampTz(v) => write_tagged("TimestampTz", v.key_text_with_zone().as_str()),
        RowValue::Date(v) => write_tagged("Date", v.key_text().as_str()),
        RowValue::Time(v) => write_tagged("Time", v.key_text().as_str()),
        RowValue::Json(v) => write_tagged("Json", v.debug().as_str()),
        RowValue::Numeric(v) => write_tagged("Numeric", outside::debug_string(v.as_str()).as_str()),
    }
}

/// The texts of values as parts of a key.
pub open spec fn key_texts(values: Seq<RowValue>) -> Seq<Seq<char>> {
    values.map_values(|v: RowValue| key_text(v))
}

/// The key that values make up: their texts, with bars between.
pub open spec fn key_of_values(values: Seq<RowValue>) -> Seq<char> {
    text::joined(key_texts(values), "|"@)
}

/// The key of a row of the given columns.
pub open spec fn row_key(
    row: Seq<RowValue>,
    columns: Seq<ColumnInfo>,
    pk_cols: Seq<ColumnInfo>,
) -> Seq<char> {
    key_of_values(sql_gen::key_values(columns, pk_cols, row))
}

/// Build a string key from PK column values for lookup.
pub fn row_pk_key(row: &Row, columns: &[ColumnInfo], pk_cols: &[ColumnInfo]) -> (r: String)
    requires
        sql_gen::keys_in_row(columns@, pk_cols@, row@),
    ensures
        r@ == row_key(row@, columns@, pk_cols@),
{
    let ghost all = key_texts(sql_gen::key_values(columns@, pk_cols@, row@));
    let mut parts: Vec<String> = Vec::new();
    for k in 0..pk_cols.len()
        invariant
            sql_gen::keys_in_row(columns@, pk_cols@, row@),
            all == key_texts(sql_gen::key_values(columns@, pk_cols@, row@)),
            text::texts(parts@) == all.take(k as int),
    {
        let ghost before = parts@;
        let ghost pk = pk_cols@[k as int];
        match types::find_column(columns, pk_cols[k].name.as_str()) {
            Some(i) => {
                parts.push(value_key_text(&row[i]));
            },
            None => {},
        }
        proof {
            assert(text::texts(parts@) =~= text::texts(before).push(all[k as int]));
            assert(text::texts(parts@) =~= all.take(k + 1));
        }
    }
    assert(text::texts(parts@) =~= all);
    text::join(parts.as_slice(), "|")
}

/// The key that values make up: their texts, with bars between.
pub fn values_key(values: &[RowValue]) -> (r: String)
    ensures
        r@ == key_of_values(values@),
{
    let mut parts: Vec<String> = Vec::new();
    for i in 0..values.len()
        invariant
            text::texts(parts@) == key_texts(values@).take(i as int),
    {
        let ghost before = parts@;
        parts.push(value_key_text(&values[i]));
        proof {
            assert(text::texts(parts@) =~= text::texts(before).push(key_texts(values@)[i as int]));
            assert(text::texts(parts@) =~= key_texts(values@).take(i + 1));
        }
    }
    assert(text::texts(parts@) =~= key_texts(values@));
    text::join(parts.as_slice(), "|")
}

/// A row by its hash and the values of its key columns.
#[derive(Clone, Debug)]
pub struct HashedKey {
    pub md5: String,
    pub key: Row,
}

/// The hashes of rows by their keys. Of two rows with the same key the later one stands.
pub open spec fn md5_map(rows: Seq<HashedKey>) -> Map<Seq<char>, Seq<char>>
    decreases rows.len(),
{
    if rows.len() == 0 {
        Map::empty()
    } else {
        md5_map(rows.drop_last()).insert(key_of_values(rows.last().key@), rows.last().md5@)
    }
}

/// Whether a map holds strings with the given texts.
pub open spec fn holds_texts(map: Map<Seq<char>, String>, all: Map<Seq<char>, Seq<char>>) -> bool {
    &&& forall|k: Seq<char>| #[trigger] map.contains_key(k) <==> all.contains_key(k)
    &&& forall|k: Seq<char>| #[trigger] map.contains_key(k) ==> map[k]@ == all[k]
}

/// Build a map from MD5 query results: pk_key_string -> md5_hash.
pub fn build_md5_map(rows: &[HashedKey]) -> (r: TextMap<String>)
    ensures
        r.valid(),
        holds_texts(r@, md5_map(rows@)),
{
    let mut map: TextMap<String> = TextMap::new();
    for i in 0..rows.len()
        invariant
            map.valid(),
            holds_texts(map@, md5_map(rows@.take(i as int))),
    {
        let ghost before = map@;
        let ghost all = md5_map(rows@.take(i as int));
        map.insert(values_key(rows[i].key.as_slice()), rows[i].md5.clone());
        proof {
            assert(rows@.take(i + 1).drop_last() =~= rows@.take(i as int));
            assert(rows@.take(i + 1).last() == rows@[i as int]);
            assert forall|k: Seq<char>| #[trigger] map@.contains_key(k) <==> md5_map(rows@.take(i + 1)).contains_key(k) by {
                assert(before.contains_key(k) <==> all.contains_key(k));
            }
            assert forall|k: Seq<char>| #[trigger] map@.contains_key(k) implies map@[k]@ == md5_map(
                rows@.take(i + 1),
            )[k] by {
                if k != key_of_values(rows@[i as int].key@) {
                    assert(before.contains_key(k));
                }
            }
        }
    }
    assert(rows@.take(rows@.len() as int) =~= rows@);
    map
}

/// The keys of the reference whose hash in the target is another, or absent.
pub open spec fn differing_keys(
    reference: Map<Seq<char>, Seq<char>>,
    target: Map<Seq<char>, Seq<char>>,
) -> Set<Seq<char>> {
    Set::new(
        |k: Seq<char>|
            reference.contains_key(k) && !(target.contains_key(k) && target[k] == reference[k]),
    )
}

/// The keys of the reference whose hash in the target is another, or absent.
pub fn find_differing_keys(reference: &[HashedKey], target: &[HashedKey]) -> (r: NameSet)
    ensures
        r.valid(),
        r@ == differing_keys(md5_map(reference@), md5_map(target@)),
{
    let ref_hashes = build_md5_map(reference);
    let target_hashes = build_md5_map(target);
    let ghost all = differing_keys(md5_map(reference@), md5_map(target@));
    let mut keys = NameSet::new();
    let n: usize = ref_hashes.len();
    let ghost order = ref_hashes.order();
    for i in 0..n
        invariant
            n == order.len(),
            order == ref_hashes.order(),
            holds_texts(ref_hashes@, md5_map(reference@)),
            holds_texts(target_hashes@, md5_map(target@)),
            all == differing_keys(md5_map(reference@), md5_map(target@)),
            keys.valid(),
            forall|k: Seq<char>|
                #[trigger] keys@.contains(k) <==> all.contains(k) && exists|j: int|
                    0 <= j < i && #[trigger] order[j] == k,
    {
        let key = ref_hashes.key_at(i);
        let hash = ref_hashes.value_at(i);
        let differs = match target_hashes.get(key) {
            None => true,
            Some(other) => !text::same_text(other.as_str(), hash.as_str()),
        };
        assert(differs <==> all.contains(key@));
        if differs {
            keys.insert(key.to_owned());
        }
    }
    proof {
        assert forall|k: Seq<char>| keys@.contains(k) <==> all.contains(k) by {
            if all.contains(k) {
                assert(ref_hashes@.contains_key(k));
                let j = order.index_of(k);
                assert(order[j] == k);
            }
        }
        assert(keys@ =~= all);
    }
    keys
}

/// Compares data between a reference and target table,
/// generating INSERT statements for missing rows and UPDATE statements for modified rows.
#[derive(Debug)]
pub struct TableDataDiff {
    pub ref_table: String,
    pub target_table: String,
    pub chunk_size: usize,
    pub columns_to_ignore: NameSet,
    pub exclude_columns: NameSet,
    pub alternate_keys: Option<Vec<String>>,
    pub exclude_real_pk: bool,
    /// Additional WHERE condition for the reference table query.
    pub table_where: Option<String>,
    /// Whether to include identity/auto-increment columns in generated SQL.
    pub include_identity_columns: Option<bool>,
    /// Target schema of the configuration. A table is found by its own name, so nothing here
    /// depends on it.
    pub target_schema: Option<String>,
    /// Analysis result from the estimation phase (determines chunk strategy).
    pub analysis: Option<TableAnalysis>,
    pub cancelled: bool,
}

/// The columns of a pair of tables that can be compared.
#[derive(Debug)]
pub struct TableSetup {
    pub ref_columns: Vec<ColumnInfo>,
    pub target_columns: Vec<ColumnInfo>,
    pub pk_cols: Vec<ColumnInfo>,
    pub real_pk_names: Vec<String>,
}

impl TableSetup {
    /// Whether the tables can be compared: there is a key, it is made up of columns of the
    /// reference, and the target has all columns of the reference.
    pub open spec fn valid(self) -> bool {
        &&& self.pk_cols@.len() > 0
        &&& forall|k: int|
            0 <= k < self.pk_cols@.len() ==> types::has_column(
                self.ref_columns@,
                (#[trigger] self.pk_cols@[k]).name@,
            )
        &&& forall|k: int|
            0 <= k < self.pk_cols@.len() ==> types::has_column(
                self.target_columns@,
                (#[trigger] self.pk_cols@[k]).name@,
            )
        &&& forall|i: int|
            0 <= i < self.ref_columns@.len() ==> types::has_column(
                self.target_columns@,
                (#[trigger] self.ref_columns@[i]).name@,
            )
    }
}

/// What an optional list of owned strings holds.
pub open spec fn owned_list(keys: Option<Vec<String>>) -> Option<Seq<String>> {
    match keys {
        Some(k) => Some(k@),
        None => None,
    }
}

/// Whether each column of the reference is in the target.
pub open spec fn columns_included(ref_columns: Seq<ColumnInfo>, target_columns: Seq<ColumnInfo>) -> bool {
    forall|i: int|
        0 <= i < ref_columns.len() ==> types::has_column(
            target_columns,
            (#[trigger] ref_columns[i]).name@,
        )
}

/// Whether each column of the reference is in the target.
fn includes_columns(ref_columns: &[ColumnInfo], target_columns: &[ColumnInfo]) -> (r: bool)
    ensures
        r == columns_included(ref_columns@, target_columns@),
{
    for i in 0..ref_columns.len()
        invariant
            forall|j: int|
                0 <= j < i ==> types::has_column(target_columns@, (#[trigger] ref_columns@[j]).name@),
    {
        if types::find_column(target_columns, ref_columns[i].name.as_str()).is_none() {
            assert(!types::has_column(target_columns@, ref_columns@[i as int].name@));
            return false;
        }
    }
    true
}

/// The status of a pair of tables, from their columns, which are absent where a table is not
/// there.
pub open spec fn setup_status(
    alternate_keys: Option<Seq<String>>,
    ref_columns: Option<Seq<ColumnInfo>>,
    target_columns: Option<Seq<ColumnInfo>>,
) -> TableDiffStatus {
    match (ref_columns, target_columns) {
        (None, _) => TableDiffStatus::ReferenceNotFound,
        (_, None) => TableDiffStatus::TargetNotFound,
        (Some(r), Some(t)) => if !columns_included(r, t) {
            TableDiffStatus::ColumnMismatch
        } else if metadata::key_columns(r, alternate_keys).len() == 0 {
            TableDiffStatus::NoPrimaryKey
        } else {
            TableDiffStatus::Okay
        },
    }
}

/// What an optional list of columns holds.
pub open spec fn columns_of(columns: Option<Vec<ColumnInfo>>) -> Option<Seq<ColumnInfo>> {
    match columns {
        Some(c) => Some(c@),
        None => None,
    }
}

/// A WHERE condition without white space around it and without a leading WHERE.
pub open spec fn bare_condition(s: Seq<char>) -> Seq<char> {
    let t = text::trimmed(s);
    if t.len() >= 5 && text::ascii_lower(t.take(5)) == text::ascii_lower("WHERE"@) {
        text::trimmed(t.skip(5))
    } else {
        t
    }
}

/// A WHERE condition without white space around it and without a leading WHERE.
fn strip_where(condition: &str) -> (r: String)
    ensures
        r@ == bare_condition(condition@),
{
    let trimmed = text::trim(condition);
    let chars = text::chars_of(trimmed.as_str());
    let n: usize = chars.len();
    if n >= 5 {
        let head = text::string_of(&chars[0..5]);
        assert(head@ =~= trimmed@.take(5));
        if text::eq_ignore_ascii_case(head.as_str(), "WHERE") {
            let rest = text::string_of(&chars[5..n]);
            assert(rest@ =~= trimmed@.skip(5));
            return text::trim(rest.as_str());
        }
    }
    trimmed
}

/// What an optional WHERE condition asks.
pub open spec fn bare_filter(condition: Option<String>) -> Option<Seq<char>> {
    match condition {
        Some(c) => Some(bare_condition(c@)),
        None => None,
    }
}

/// What an optional WHERE condition asks.
pub fn make_filter(condition: &Option<String>) -> (r: Option<String>)
    ensures
        chunk_strategy::owned_text_of(r) == bare_filter(*condition),
{
    match condition {
        Some(c) => Some(strip_where(c.as_str())),
        None => None,
    }
}

/// The lowercase names of the columns that an INSERT leaves out.
pub open spec fn exclude_set(
    diff: TableDataDiff,
    ref_columns: Seq<ColumnInfo>,
    real_pk_names: Seq<String>,
) -> Set<Seq<char>> {
    Set::new(
        |k: Seq<char>|
            {
                ||| diff.exclude_columns@.contains(k)
                ||| (diff.exclude_real_pk && diff.alternate_keys is Some
                    && collections::lowercase_names(real_pk_names).contains(k))
                ||| (diff.include_identity_columns != Some(true) && is_identity_name(ref_columns, k))
            },
    )
}

/// Whether a lowercase name is that of an identity column.
pub open spec fn is_identity_name(columns: Seq<ColumnInfo>, k: Seq<char>) -> bool {
    exists|i: int|
        0 <= i < columns.len() && (#[trigger] columns[i]).is_identity && outside::lowercase_text(
            columns[i].name@,
        ) == k
}

/// The lowercase names of the columns that are not compared, and so are in no UPDATE.
pub open spec fn ignored_columns(diff: TableDataDiff, ref_columns: Seq<ColumnInfo>) -> Set<Seq<char>> {
    Set::new(
        |k: Seq<char>|
            diff.columns_to_ignore@.contains(k) || diff.include_identity_columns == Some(false)
                && is_identity_name(ref_columns, k),
    )
}

/// Adds the lowercase names of identity columns to other names.
fn insert_identity_names(names: &mut NameSet, columns: &[ColumnInfo])
    requires
        old(names).valid(),
    ensures
        final(names).valid(),
        forall|k: Seq<char>| #[trigger]
            final(names)@.contains(k) <==> old(names)@.contains(k) || is_identity_name(columns@, k),
{
    let ghost before = names@;
    for i in 0..columns.len()
        invariant
            names.valid(),
            forall|k: Seq<char>|
                #[trigger] names@.contains(k) <==> before.contains(k) || exists|j: int|
                    0 <= j < i && (#[trigger] columns@[j]).is_identity && outside::lowercase_text(
                        columns@[j].name@,
                    ) == k,
    {
        if columns[i].is_identity {
            names.insert(outside::lowercase(columns[i].name.as_str()));
        }
    }
}

/// The query for the rows of the reference table.
pub open spec fn retrieve_statement(diff: TableDataDiff, setup: TableSetup) -> Seq<char> {
    let select = sql_gen::fetch_statement(diff.ref_table@, setup.ref_columns@);
    match diff.table_where {
        Some(w) => select + " WHERE "@ + w@,
        None => select,
    }
}

impl TableDataDiff {
    pub fn new(ref_table: String, target_table: String) -> (r: TableDataDiff)
        ensures
            r.ref_table == ref_table,
            r.target_table == target_table,
            r.chunk_size == 25,
            r.columns_to_ignore@ == Set::<Seq<char>>::empty(),
            r.exclude_columns@ == Set::<Seq<char>>::empty(),
            r.alternate_keys is None,
            !r.exclude_real_pk,
            r.table_where is None,
            r.include_identity_columns is None,
            r.target_schema is None,
            r.analysis is None,
            !r.cancelled,
    {
        TableDataDiff {
            ref_table,
            target_table,
            chunk_size: 25,
            columns_to_ignore: NameSet::new(),
            exclude_columns: NameSet::new(),
            alternate_keys: None,
            exclude_real_pk: false,
            table_where: None,
            include_identity_columns: None,
            target_schema: None,
            analysis: None,
            cancelled: false,
        }
    }

    pub fn set_chunk_size(&mut self, size: usize)
        ensures
            final(self).chunk_size == if size == 0 { 1 } else { size as int },
            *final(self) == (TableDataDiff { chunk_size: final(self).chunk_size, ..*old(self) }),
    {
        self.chunk_size = if size == 0 {
            1
        } else {
            size
        };
    }

    pub fn set_columns_to_ignore(&mut self, cols: &NameSet)
        ensures
            final(self).columns_to_ignore@ == collections::lowered(cols@),
            *final(self) == (TableDataDiff {
                columns_to_ignore: final(self).columns_to_ignore,
                ..*old(self)
            }),
    {
        self.columns_to_ignore = cols.to_lowercase();
    }

    pub fn set_exclude_columns(&mut self, cols: &NameSet)
        ensures
            final(self).exclude_columns@ == collections::lowered(cols@),
            *final(self) == (TableDataDiff {
                exclude_columns: final(self).exclude_columns,
                ..*old(self)
            }),
    {
        self.exclude_columns = cols.to_lowercase();
    }

    pub fn set_alternate_keys(&mut self, keys: Option<Vec<String>>)
        ensures
            *final(self) == (TableDataDiff { alternate_keys: keys, ..*old(self) }),
    {
        self.alternate_keys = keys;
    }

    pub fn set_exclude_real_pk(&mut self, flag: bool)
        ensures
            *final(self) == (TableDataDiff { exclude_real_pk: flag, ..*old(self) }),
    {
        self.exclude_real_pk = flag;
    }

    /// Sets the WHERE condition, without a leading WHERE keyword if it has one.
    pub fn set_table_where(&mut self, condition: Option<String>)
        ensures
            chunk_strategy::owned_text_of(final(self).table_where) == bare_filter(condition),
            *final(self) == (TableDataDiff { table_where: final(self).table_where, ..*old(self) }),
    {
        self.table_where = make_filter(&condition);
    }

    pub fn set_include_identity_columns(&mut self, flag: Option<bool>)
        ensures
            *final(self) == (TableDataDiff { include_identity_columns: flag, ..*old(self) }),
    {
        self.include_identity_columns = flag;
    }

    pub fn set_analysis(&mut self, analysis: Option<TableAnalysis>)
        ensures
            *final(self) == (TableDataDiff { analysis, ..*old(self) }),
    {
        self.analysis = analysis;
    }

    pub fn set_target_schema(&mut self, schema: Option<String>)
        ensures
            *final(self) == (TableDataDiff { target_schema: schema, ..*old(self) }),
    {
        self.target_schema = schema;
    }

    pub fn cancel(&mut self)
        ensures
            *final(self) == (TableDataDiff { cancelled: true, ..*old(self) }),
    {
        self.cancelled = true;
    }

    /// Validate that both tables exist and have compatible columns. The columns of a table that
    /// is not there are absent.
    ///
    /// Target must exist. All reference columns must exist in target (target may have extra columns).
    pub fn setup(
        &self,
        ref_columns: Option<Vec<ColumnInfo>>,
        target_columns: Option<Vec<ColumnInfo>>,
    ) -> (r: Result<TableSetup, TableDiffStatus>)
        ensures
            ({
                let status = setup_status(
                    owned_list(self.alternate_keys),
                    columns_of(ref_columns),
                    columns_of(target_columns),
                );
                match r {
                    Ok(setup) => status == TableDiffStatus::Okay && setup.valid() && Some(
                        setup.ref_columns,
                    ) == ref_columns && Some(setup.target_columns) == target_columns
                        && setup.pk_cols@ == metadata::key_columns(
                        setup.ref_columns@,
                        owned_list(self.alternate_keys),
                    ) && text::texts(setup.real_pk_names@) == metadata::real_pk_names(
                        setup.ref_columns@,
                    ),
                    Err(s) => s == status && status != TableDiffStatus::Okay,
                }
            }),
    {
        let ref_columns = match ref_columns {
            Some(columns) => columns,
            None => {
                return Err(TableDiffStatus::ReferenceNotFound);
            },
        };
        let target_columns = match target_columns {
            Some(columns) => columns,
            None => {
                return Err(TableDiffStatus::TargetNotFound);
            },
        };
        if !includes_columns(ref_columns.as_slice(), target_columns.as_slice()) {
            return Err(TableDiffStatus::ColumnMismatch);
        }
        let keys = match &self.alternate_keys {
            Some(keys) => Some(keys.as_slice()),
            None => None,
        };
        let (pk_cols, real_pk_names) = metadata::resolve_pk_columns(ref_columns.as_slice(), keys);
        if pk_cols.len() == 0 {
            return Err(TableDiffStatus::NoPrimaryKey);
        }
        proof {
            let keep = metadata::is_key_column(ref_columns@, owned_list(self.alternate_keys));
            collections::lemma_picked(ref_columns@.len(), keep);
            let places = collections::picked(ref_columns@.len(), keep);
            assert forall|k: int| 0 <= k < pk_cols@.len() implies types::has_column(
                ref_columns@,
                (#[trigger] pk_cols@[k]).name@,
            ) && types::has_column(target_columns@, pk_cols@[k].name@) by {
                assert(pk_cols@[k] == ref_columns@[places[k]]);
                types::lemma_column_index(ref_columns@, pk_cols@[k].name@);
                assert(types::column_is(ref_columns@[places[k]], pk_cols@[k].name@));
            }
        }
        Ok(TableSetup { ref_columns, target_columns, pk_cols, real_pk_names })
    }

    /// The error that a failed setup is reported as. There is none for tables that can be
    /// compared.
    pub fn status_error(&self, status: TableDiffStatus) -> (r: Option<DataDiffError>)
        ensures
            match status {
                TableDiffStatus::ReferenceNotFound => r matches Some(DataDiffError::TableNotFound(t)) && t@
                    == self.ref_table@,
                TableDiffStatus::TargetNotFound => r matches Some(DataDiffError::TableNotFound(t)) && t@
                    == self.target_table@,
                TableDiffStatus::NoPrimaryKey => r matches Some(DataDiffError::NoPrimaryKey(t)) && t@
                    == self.ref_table@,
                TableDiffStatus::ColumnMismatch => r matches Some(
                    DataDiffError::ColumnMismatch { ref_table, target_table },
                ) && ref_table@ == self.ref_table@ && target_table@ == self.target_table@,
                TableDiffStatus::Okay => r is None,
            },
    {
        match status {
            TableDiffStatus::ReferenceNotFound => Some(
                DataDiffError::TableNotFound(self.ref_table.clone()),
            ),
            TableDiffStatus::TargetNotFound => Some(
                DataDiffError::TableNotFound(self.target_table.clone()),
            ),
            TableDiffStatus::NoPrimaryKey => Some(DataDiffError::NoPrimaryKey(self.ref_table.clone())),
            TableDiffStatus::ColumnMismatch => Some(
                DataDiffError::ColumnMismatch {
                    ref_table: self.ref_table.clone(),
                    target_table: self.target_table.clone(),
                },
            ),
            TableDiffStatus::Okay => None,
        }
    }

    /// Build the set of columns to exclude from generated SQL output.
    pub fn build_exclude_set(
        &self,
        ref_columns: &[ColumnInfo],
        real_pk_names: &[String],
    ) -> (r: NameSet)
        ensures
            r.valid(),
            r@ == exclude_set(*self, ref_columns@, real_pk_names@),
    {
        let mut exclude = self.exclude_columns.clone();
        if self.exclude_real_pk && self.alternate_keys.is_some() {
            assert(real_pk_names@.take(0) =~= Seq::<String>::empty());
            for i in 0..real_pk_names.len()
                invariant
                    exclude.valid(),
                    forall|k: Seq<char>|
                        #[trigger] exclude@.contains(k) <==> self.exclude_columns@.contains(k) || exists|j: int|
                            0 <= j < i && outside::lowercase_text((#[trigger] real_pk_names@[j])@) == k,
            {
                exclude.insert(outside::lowercase(real_pk_names[i].as_str()));
            }
        }
        let exclude_identity = match self.include_identity_columns {
            Some(included) => !included,
            None => true,
        };
        if exclude_identity {
            insert_identity_names(&mut exclude, ref_columns);
        }
        assert(exclude@ =~= exclude_set(*self, ref_columns@, real_pk_names@));
        exclude
    }

    /// The columns that are not compared, and so are in no UPDATE: those to ignore, and identity
    /// columns where they are always left out.
    pub fn build_ignore_set(&self, ref_columns: &[ColumnInfo]) -> (r: NameSet)
        ensures
            r@ == ignored_columns(*self, ref_columns@),
    {
        let mut ignore = self.columns_to_ignore.clone();
        if let Some(included) = self.include_identity_columns {
            if !included {
                insert_identity_names(&mut ignore, ref_columns);
            }
        }
        assert(ignore@ =~= ignored_columns(*self, ref_columns@));
        ignore
    }

    /// The query for the rows of the reference table.
    pub fn build_retrieve_query(&self, setup: &TableSetup) -> (r: String)
        ensures
            r@ == retrieve_statement(*self, *setup),
    {
        let mut out = sql_gen::build_fetch(self.ref_table.as_str(), setup.ref_columns.as_slice());
        if let Some(condition) = &self.table_where {
            out.append(" WHERE ");
            out.append(condition.as_str());
        }
        out
    }
}

/// What a reference row asks of the target.
pub enum RowChange {
    /// The target has the row as it is.
    Same,
    /// The target lacks the row: the INSERT that adds it.
    Insert(Seq<char>),
    /// The row differs: the UPDATE that changes it.
    Update(Seq<char>),
}

/// What a reference row asks of the target, given the rows of the target.
pub open spec fn row_change(
    diff: TableDataDiff,
    setup: TableSetup,
    exclude: Set<Seq<char>>,
    target_rows: Seq<Row>,
    row: Row,
) -> RowChange {
    let m = match_index(
        target_rows,
        setup.target_columns@,
        row@,
        setup.ref_columns@,
        setup.pk_cols@,
    );
    if m >= target_rows.len() {
        RowChange::Insert(
            sql_gen::insert_statement(diff.target_table@, setup.ref_columns@, row@, exclude),
        )
    } else {
        let modified = modified_columns(
            row@,
            target_rows[m]@,
            setup.ref_columns@,
            setup.target_columns@,
            ignored_columns(diff, setup.ref_columns@),
        );
        if modified.len() == 0 {
            RowChange::Same
        } else {
            RowChange::Update(
                sql_gen::update_statement(
                    diff.target_table@,
                    setup.ref_columns@,
                    setup.pk_cols@,
                    row@,
                    modified,
                ),
            )
        }
    }
}

/// What reference rows ask of the target, each for itself.
pub open spec fn row_changes(
    diff: TableDataDiff,
    setup: TableSetup,
    exclude: Set<Seq<char>>,
    target_rows: Seq<Row>,
    rows: Seq<Row>,
) -> Seq<RowChange> {
    rows.map_values(|row: Row| row_change(diff, setup, exclude, target_rows, row))
}

/// The INSERT statements among changes.
pub open spec fn inserted(changes: Seq<RowChange>) -> Seq<Seq<char>>
    decreases changes.len(),
{
    if changes.len() == 0 {
        Seq::empty()
    } else {
        let before = inserted(changes.drop_last());
        match changes.last() {
            RowChange::Insert(sql) => before.push(sql),
            _ => before,
        }
    }
}

/// The UPDATE statements among changes.
pub open spec fn updated(changes: Seq<RowChange>) -> Seq<Seq<char>>
    decreases changes.len(),
{
    if changes.len() == 0 {
        Seq::empty()
    } else {
        let before = updated(changes.drop_last());
        match changes.last() {
            RowChange::Update(sql) => before.push(sql),
            _ => before,
        }
    }
}

/// Statements one after another, each followed by an ending.
pub open spec fn lines(statements: Seq<Seq<char>>, ending: Seq<char>) -> Seq<char>
    decreases statements.len(),
{
    if statements.len() == 0 {
        Seq::empty()
    } else {
        lines(statements.drop_last(), ending) + (statements.last() + ending)
    }
}

/// What is written of statements: nothing where there are none, and else the statements, after
/// a header where they are the first.
pub open spec fn script(head: Seq<char>, statements: Seq<Seq<char>>, ending: Seq<char>, first: bool) -> Seq<char> {
    if statements.len() == 0 {
        Seq::empty()
    } else if first {
        head + lines(statements, ending)
    } else {
        lines(statements, ending)
    }
}

/// Adding a statement to a script.
pub proof fn lemma_script_push(
    head: Seq<char>,
    statements: Seq<Seq<char>>,
    statement: Seq<char>,
    ending: Seq<char>,
    first: bool,
)
    ensures
        script(head, statements.push(statement), ending, first) == script(head, statements, ending, first) + (
        if first && statements.len() == 0 {
            head
        } else {
            Seq::empty()
        }) + (statement + ending),
{
    let more = statements.push(statement);
    assert(more.drop_last() =~= statements);
    assert(lines(more, ending) == lines(statements, ending) + (statement + ending));
    if statements.len() == 0 {
        assert(lines(statements, ending) =~= Seq::<char>::empty());
        assert(head + (Seq::<char>::empty() + (statement + ending)) =~= Seq::<char>::empty() + head + (statement
            + ending));
        assert(Seq::<char>::empty() + (statement + ending) =~= Seq::<char>::empty() + Seq::<char>::empty() + (
        statement + ending));
    } else if first {
        let l = lines(statements, ending);
        assert(head + (l + (statement + ending)) =~= (head + l) + Seq::<char>::empty() + (statement + ending));
    } else {
        let l = lines(statements, ending);
        assert(l + (statement + ending) =~= l + Seq::<char>::empty() + (statement + ending));
    }
}

/// What a chunk of rows adds to the scripts.
#[derive(Debug)]
pub struct ChunkOutput {
    pub inserts: String,
    pub updates: String,
}

/// Whether rows have a value for each column.
pub open spec fn rows_fit(rows: Seq<Row>, columns: Seq<ColumnInfo>) -> bool {
    forall|i: int| 0 <= i < rows.len() ==> (#[trigger] rows[i])@.len() == columns.len()
}

impl TableSetup {
    /// A row of the reference has the values of the key.
    proof fn lemma_ref_keys(self, row: Seq<RowValue>)
        requires
            self.valid(),
            row.len() == self.ref_columns@.len(),
        ensures
            sql_gen::keys_in_row(self.ref_columns@, self.pk_cols@, row),
    {
    }

    /// A row of the target has the values of the key.
    proof fn lemma_target_keys(self, row: Seq<RowValue>)
        requires
            self.valid(),
            row.len() == self.target_columns@.len(),
        ensures
            sql_gen::keys_in_row(self.target_columns@, self.pk_cols@, row),
    {
    }
}

impl TableDataDiff {
    /// Check a chunk of reference rows against the rows of the target table that have their keys.
    pub fn check_rows(
        &self,
        setup: &TableSetup,
        exclude_from_output: &NameSet,
        ref_rows: &[Row],
        target_rows: &[Row],
        stats: &mut DiffStats,
    ) -> (r: Result<ChunkOutput, DataDiffError>)
        requires
            setup.valid(),
            rows_fit(ref_rows@, setup.ref_columns@),
            rows_fit(target_rows@, setup.target_columns@),
            old(stats).inserts + ref_rows@.len() <= u64::MAX,
            old(stats).updates + ref_rows@.len() <= u64::MAX,
        ensures
            ({
                let changes = row_changes(*self, *setup, exclude_from_output@, target_rows@, ref_rows@);
                let head = header(self.target_table@);
                match r {
                    Ok(out) => {
                        &&& !(self.cancelled && ref_rows@.len() > 0)
                        &&& out.inserts@ == script(head, inserted(changes), "\n\n"@, old(stats).inserts == 0)
                        &&& out.updates@ == script(head, updated(changes), "\n\n"@, old(stats).updates == 0)
                        &&& final(stats).inserts == old(stats).inserts + inserted(changes).len()
                        &&& final(stats).updates == old(stats).updates + updated(changes).len()
                    },
                    Err(e) => {
                        &&& e is Cancelled
                        &&& self.cancelled && ref_rows@.len() > 0
                        &&& *final(stats) == *old(stats)
                    },
                }
            }),
    {
        let ghost all = row_changes(*self, *setup, exclude_from_output@, target_rows@, ref_rows@);
        let ghost head = header(self.target_table@);
        let ghost had = *old(stats);
        let ignore = self.build_ignore_set(setup.ref_columns.as_slice());
        let mut inserts = String::new();
        let mut updates = String::new();
        assert(all.take(0) =~= Seq::<RowChange>::empty());
        for i in 0..ref_rows.len()
            invariant
                setup.valid(),
                rows_fit(ref_rows@, setup.ref_columns@),
                rows_fit(target_rows@, setup.target_columns@),
                had == *old(stats),
                had.inserts + ref_rows@.len() <= u64::MAX,
                had.updates + ref_rows@.len() <= u64::MAX,
                all == row_changes(*self, *setup, exclude_from_output@, target_rows@, ref_rows@),
                head == header(self.target_table@),
                ignore@ == ignored_columns(*self, setup.ref_columns@),
                self.cancelled ==> i == 0,
                inserted(all.take(i as int)).len() <= i,
                updated(all.take(i as int)).len() <= i,
                inserts@ == script(head, inserted(all.take(i as int)), "\n\n"@, had.inserts == 0),
                updates@ == script(head, updated(all.take(i as int)), "\n\n"@, had.updates == 0),
                stats.inserts == had.inserts + inserted(all.take(i as int)).len(),
                stats.updates == had.updates + updated(all.take(i as int)).len(),
        {
            if self.cancelled {
                assert(*stats == had);
                return Err(DataDiffError::Cancelled);
            }
            let row = &ref_rows[i];
            let ghost less = all.take(i as int);
            proof {
                assert(all.take(i + 1) =~= less.push(all[i as int]));
                assert(all.take(i + 1).drop_last() =~= less);
                setup.lemma_ref_keys(row@);
                assert forall|j: int| 0 <= j < target_rows@.len() implies sql_gen::keys_in_row(
                    setup.target_columns@,
                    setup.pk_cols@,
                    (#[trigger] target_rows@[j])@,
                ) by {
                    setup.lemma_target_keys(target_rows@[j]@);
                }
                lemma_match_index(
                    target_rows@,
                    setup.target_columns@,
                    row@,
                    setup.ref_columns@,
                    setup.pk_cols@,
                );
            }
            let found = find_row_by_pk(
                target_rows,
                setup.target_columns.as_slice(),
                row,
                setup.ref_columns.as_slice(),
                setup.pk_cols.as_slice(),
            );
            match found {
                None => {
                    if stats.inserts == 0 {
                        inserts.append(write_header(self.target_table.as_str()).as_str());
                    }
                    let sql = sql_gen::generate_insert(
                        self.target_table.as_str(),
                        setup.ref_columns.as_slice(),
                        row.as_slice(),
                        exclude_from_output,
                    );
                    let mut line = sql.clone();
                    line.append("\n\n");
                    proof {
                        lemma_script_push(head, inserted(less), sql@, "\n\n"@, had.inserts == 0);
                        assert(script(head, inserted(less), "\n\n"@, had.inserts == 0) + Seq::<char>::empty()
                            =~= script(head, inserted(less), "\n\n"@, had.inserts == 0));
                    }
                    inserts.append(line.as_str());
                    stats.inserts = stats.inserts + 1;
                },
                Some(target_row) => {
                    let modified = find_modified_columns(
                        row,
                        target_row,
                        setup.ref_columns.as_slice(),
                        setup.target_columns.as_slice(),
                        &ignore,
                    );
                    proof {
                        let keep = is_modified(
                            row@,
                            target_row@,
                            setup.ref_columns@,
                            setup.target_columns@,
                            ignore@,
                        );
                        let places = collections::picked(setup.ref_columns@.len(), keep);
                        collections::lemma_picked(setup.ref_columns@.len(), keep);
                        assert forall|j: int| 0 <= j < modified@.len() implies (#[trigger] modified@[j])
                            < setup.ref_columns@.len() by {
                            assert(0 <= places[j] < setup.ref_columns@.len());
                            assert(modified@[j] == places[j] as usize);
                        }
                    }
                    if let Some(sql) = sql_gen::generate_update(
                        self.target_table.as_str(),
                        setup.ref_columns.as_slice(),
                        setup.pk_cols.as_slice(),
                        row.as_slice(),
                        modified.as_slice(),
                    ) {
                        if stats.updates == 0 {
                            updates.append(write_header(self.target_table.as_str()).as_str());
                        }
                        let mut line = sql.clone();
                        line.append("\n\n");
                        proof {
                            lemma_script_push(head, updated(less), sql@, "\n\n"@, had.updates == 0);
                            assert(script(head, updated(less), "\n\n"@, had.updates == 0) + Seq::<char>::empty()
                                =~= script(head, updated(less), "\n\n"@, had.updates == 0));
                        }
                        updates.append(line.as_str());
                        stats.updates = stats.updates + 1;
                    }
                },
            }
        }
        assert(all.take(ref_rows@.len() as int) =~= all);
        Ok(ChunkOutput { inserts, updates })
    }
}

/// Whether a row has one of the given keys.
pub open spec fn has_key_in(
    columns: Seq<ColumnInfo>,
    pk_cols: Seq<ColumnInfo>,
    keys: Set<Seq<char>>,
) -> spec_fn(Row) -> bool {
    |row: Row| keys.contains(row_key(row@, columns, pk_cols))
}

/// The rows that have one of the given keys.
pub fn rows_with_keys(
    rows: Vec<Row>,
    columns: &[ColumnInfo],
    pk_cols: &[ColumnInfo],
    keys: &NameSet,
) -> (r: Vec<Row>)
    requires
        forall|i: int| 0 <= i < rows@.len() ==> sql_gen::keys_in_row(columns@, pk_cols@, (#[trigger] rows@[i])@),
    ensures
        r@ == rows@.filter(has_key_in(columns@, pk_cols@, keys@)),
{
    let ghost all = rows@;
    let ghost keep = has_key_in(columns@, pk_cols@, keys@);
    let mut kept: Vec<Row> = Vec::new();
    proof {
        reveal(Seq::filter);
        assert(all.take(0).filter(keep) =~= Seq::<Row>::empty());
    }
    for row in it: rows
        invariant
            it.seq() == all,
            keep == has_key_in(columns@, pk_cols@, keys@),
            forall|i: int| 0 <= i < all.len() ==> sql_gen::keys_in_row(columns@, pk_cols@, (#[trigger] all[i])@),
            kept@ == all.take(it.index() as int).filter(keep),
    {
        let ghost i = it.index() as int;
        assert(row == all[i]);
        proof {
            let less = all.take(i);
            assert(all.take(i + 1) =~= less.push(row));
            less.lemma_filter_push(row, keep);
        }
        let key = row_pk_key(&row, columns, pk_cols);
        if keys.contains(key.as_str()) {
            kept.push(row);
        }
    }
    assert(all.take(all.len() as int) =~= all);
    kept
}

/// What a run does next.
#[derive(Clone, Copy, Debug, PartialEq, Eq, Structural)]
pub enum RunPhase {
    /// Fetch the rows of the reference.
    Rows,
    /// Fetch the hashes of a chunk from both tables.
    Hashes,
    /// Fetch the rows of a chunk from the reference.
    ChunkRows,
    /// Fetch rows from the target, to check rows of the reference against.
    Check,
    /// Nothing.
    Done,
}

/// What is to be fetched next.
#[derive(Debug)]
pub enum DiffAction {
    /// The rows of the reference.
    FetchRows { sql: String },
    /// The hashes of a chunk, from the reference and from the target.
    FetchHashes {
        ref_sql: String,
        target_sql: String,
        bounds: ChunkBounds,
        chunk_index: usize,
        total_chunks: usize,
    },
    /// The rows of a chunk from the reference.
    FetchChunkRows { sql: String, bounds: ChunkBounds },
    /// Rows from the target.
    FetchTarget { sql: String },
    /// Nothing: the comparison is done.
    Finish(DiffStats),
}

/// A comparison of two tables that is under way.
#[derive(Debug)]
pub struct TableDiffRun {
    pub diff: TableDataDiff,
    pub setup: TableSetup,
    /// The lowercase names of the columns that an INSERT leaves out.
    pub exclude: NameSet,
    /// Whether rows are compared by their hashes first.
    pub hashed: bool,
    /// The column by which chunks are told apart.
    pub timestamp_column: String,
    pub bounds: Vec<ChunkBounds>,
    /// The chunk that is compared.
    pub chunk: usize,
    /// The keys of the rows of the chunk that differ.
    pub keys: NameSet,
    /// The rows of the reference that are to be checked, and how many of them have been.
    pub pending: Vec<Row>,
    pub checked: usize,
    pub phase: RunPhase,
    pub stats: DiffStats,
}

/// Whether a table is compared by hashes of chunks of a time range.
pub open spec fn uses_hashes(diff: TableDataDiff) -> bool {
    diff.analysis matches Some(a) && a.strategy is Md5TimestampChunk
}

/// The timestamp column of a strategy.
pub open spec fn chunk_column(strategy: ChunkStrategy) -> Seq<char> {
    match strategy {
        ChunkStrategy::Md5TimestampChunk { timestamp_column, .. } => timestamp_column@,
        _ => ""@,
    }
}

/// What comes after a chunk: the next one, if there is one.
pub open spec fn phase_at_chunk(chunk: int, total: int) -> RunPhase {
    if chunk < total {
        RunPhase::Hashes
    } else {
        RunPhase::Done
    }
}

/// Where a batch of rows ends that starts after the rows that have been checked.
pub open spec fn batch_end(checked: int, size: int, total: int) -> int {
    if total - checked <= size {
        total
    } else {
        checked + size
    }
}

impl TableDataDiff {
    /// Starts the diff: compare reference with target, for INSERT/UPDATE SQL.
    ///
    /// Compares by hashes of chunks if the analysis strategy is `Md5TimestampChunk`, otherwise row
    /// by row. The chunks start the given seconds after the start of the range. There is no answer
    /// where a chunk would leave the range of a timestamp.
    pub fn execute(self, setup: TableSetup, offsets: &[i64]) -> (r: Option<TableDiffRun>)
        requires
            setup.valid(),
            self.chunk_size > 0,
        ensures
            r is Some <==> (uses_hashes(self) ==> chunk_strategy::strategy_in_range(
                self.analysis->0.strategy,
                offsets@,
            )),
            r matches Some(r) ==> {
                &&& r.valid()
                &&& r.diff == self
                &&& r.setup == setup
                &&& r.hashed == uses_hashes(self)
                &&& r.hashed ==> r.timestamp_column@ == chunk_column(self.analysis->0.strategy)
                &&& r.hashed ==> chunk_strategy::are_bounds(r.bounds@, self.analysis->0.strategy, offsets@)
                &&& r.chunk == 0
                &&& r.stats == (DiffStats { inserts: 0, updates: 0 })
                &&& r.phase == if r.hashed {
                    phase_at_chunk(0, offsets@.len() as int)
                } else {
                    RunPhase::Rows
                }
            },
    {
        let bounds = match &self.analysis {
            Some(analysis) => chunk_strategy::strategy_bounds(&analysis.strategy, offsets),
            None => Some(Vec::new()),
        };
        let bounds = match bounds {
            Some(bounds) => bounds,
            None => {
                return None;
            },
        };
        let exclude = self.build_exclude_set(
            setup.ref_columns.as_slice(),
            setup.real_pk_names.as_slice(),
        );
        let column = match &self.analysis {
            Some(analysis) => match &analysis.strategy {
                ChunkStrategy::Md5TimestampChunk { timestamp_column, .. } => Some(
                    timestamp_column.clone(),
                ),
                _ => None,
            },
            None => None,
        };
        let hashed = column.is_some();
        let timestamp_column = match column {
            Some(name) => name,
            None => String::new(),
        };
        let phase = if !hashed {
            RunPhase::Rows
        } else if bounds.len() > 0 {
            RunPhase::Hashes
        } else {
            RunPhase::Done
        };
        Some(
            TableDiffRun {
                diff: self,
                setup,
                exclude,
                hashed,
                timestamp_column,
                bounds,
                chunk: 0,
                keys: NameSet::new(),
                pending: Vec::new(),
                checked: 0,
                phase,
                stats: DiffStats { inserts: 0, updates: 0 },
            },
        )
    }
}

/// A comparison by hashes misses nothing of the range that was analyzed, and compares nothing of
/// it twice: each point in time from the lowest value to the highest is in exactly one chunk.
pub proof fn hashes_cover_the_range(run: TableDiffRun, offsets: Seq<i64>, nanos: int)
    requires
        run.valid(),
        run.hashed,
        chunk_strategy::are_bounds(run.bounds@, run.diff.analysis->0.strategy, offsets),
        offsets.len() > 0,
        offsets[0] == 0,
        forall|i: int, j: int| 0 <= i < j < offsets.len() ==> #[trigger] offsets[i] <= #[trigger] offsets[j],
        run.diff.analysis->0.strategy->min_ts.total_nanos() <= nanos
            <= run.diff.analysis->0.strategy->max_ts.total_nanos(),
    ensures
        exists|i: int| 0 <= i < run.bounds@.len() && (#[trigger] run.bounds@[i]).covers(nanos),
        forall|i: int, j: int|
            0 <= i < run.bounds@.len() && 0 <= j < run.bounds@.len() && (#[trigger] run.bounds@[i]).covers(nanos)
                && (#[trigger] run.bounds@[j]).covers(nanos) ==> i == j,
{
    let strategy = run.diff.analysis->0.strategy;
    chunk_strategy::chunks_tile_the_range(strategy->min_ts, strategy->max_ts, offsets, run.bounds@, nanos);
}

impl TableDiffRun {
    /// Whether the parts of the run fit together.
    pub open spec fn valid(self) -> bool {
        &&& self.setup.valid()
        &&& self.diff.chunk_size > 0
        &&& self.hashed == uses_hashes(self.diff)
        &&& self.exclude@ == exclude_set(self.diff, self.setup.ref_columns@, self.setup.real_pk_names@)
        &&& rows_fit(self.pending@, self.setup.ref_columns@)
        &&& self.phase is Rows ==> !self.hashed
        &&& self.phase is Hashes || self.phase is ChunkRows ==> self.hashed && self.chunk < self.bounds@.len()
        &&& self.phase is Check ==> self.checked < self.pending@.len()
        &&& self.phase is Check && self.hashed ==> self.chunk < self.bounds@.len()
    }

    /// The rows that are checked next.
    pub open spec fn batch(self) -> Seq<Row> {
        self.pending@.subrange(
            self.checked as int,
            batch_end(self.checked as int, self.diff.chunk_size as int, self.pending@.len() as int),
        )
    }

    /// Whether two runs compare the same tables in the same way.
    pub open spec fn same_task(self, other: TableDiffRun) -> bool {
        &&& self.diff == other.diff
        &&& self.setup == other.setup
        &&& self.exclude == other.exclude
        &&& self.hashed == other.hashed
        &&& self.timestamp_column == other.timestamp_column
        &&& self.bounds == other.bounds
    }

    /// What is to be fetched next. The condition on the reference is part of all that is fetched
    /// from it. Where the comparison was cancelled there is nothing, but for the rows that it
    /// starts with.
    pub fn action(&self) -> (r: Result<DiffAction, DataDiffError>)
        requires
            self.valid(),
        ensures
            r is Err <==> self.diff.cancelled && (self.phase is Hashes || self.phase is ChunkRows
                || self.phase is Check),
            r matches Err(e) ==> e is Cancelled,
            r matches Ok(action) ==> match self.phase {
                RunPhase::Rows => action matches DiffAction::FetchRows { sql } && sql@ == retrieve_statement(
                    self.diff,
                    self.setup,
                ),
                RunPhase::Hashes => action matches DiffAction::FetchHashes {
                    ref_sql,
                    target_sql,
                    bounds,
                    chunk_index,
                    total_chunks,
                } && ref_sql@ == sql_gen::hash_statement(
                    self.diff.ref_table@,
                    self.setup.ref_columns@,
                    self.setup.pk_cols@,
                    Some(self.timestamp_column@),
                    chunk_strategy::owned_text_of(self.diff.table_where),
                ) && target_sql@ == sql_gen::hash_statement(
                    self.diff.target_table@,
                    self.setup.ref_columns@,
                    self.setup.pk_cols@,
                    Some(self.timestamp_column@),
                    None,
                ) && bounds == self.bounds@[self.chunk as int] && chunk_index == self.chunk && total_chunks
                    == self.bounds@.len(),
                RunPhase::ChunkRows => action matches DiffAction::FetchChunkRows { sql, bounds } && sql@
                    == sql_gen::range_rows_statement(
                    self.diff.ref_table@,
                    self.setup.ref_columns@,
                    self.setup.pk_cols@,
                    self.timestamp_column@,
                    chunk_strategy::owned_text_of(self.diff.table_where),
                ) && bounds == self.bounds@[self.chunk as int],
                RunPhase::Check => action matches DiffAction::FetchTarget { sql } && sql@
                    == sql_gen::fetch_by_key_statement(
                    self.diff.target_table@,
                    self.setup.target_columns@,
                    sql_gen::row_conditions(self.setup.ref_columns@, self.setup.pk_cols@, self.batch()),
                ),
                RunPhase::Done => action == DiffAction::Finish(self.stats),
            },
    {
        if self.diff.cancelled {
            match self.phase {
                RunPhase::Rows | RunPhase::Done => {},
                _ => {
                    return Err(DataDiffError::Cancelled);
                },
            }
        }
        let filter = chunk_strategy::borrowed(&self.diff.table_where);
        match self.phase {
            RunPhase::Rows => Ok(
                DiffAction::FetchRows { sql: self.diff.build_retrieve_query(&self.setup) },
            ),
            RunPhase::Hashes => Ok(
                DiffAction::FetchHashes {
                    ref_sql: sql_gen::build_hash_query(
                        self.diff.ref_table.as_str(),
                        self.setup.ref_columns.as_slice(),
                        self.setup.pk_cols.as_slice(),
                        Some(self.timestamp_column.as_str()),
                        filter,
                    ),
                    target_sql: sql_gen::build_hash_query(
                        self.diff.target_table.as_str(),
                        self.setup.ref_columns.as_slice(),
                        self.setup.pk_cols.as_slice(),
                        Some(self.timestamp_column.as_str()),
                        None,
                    ),
                    bounds: self.bounds[self.chunk],
                    chunk_index: self.chunk,
                    total_chunks: self.bounds.len(),
                },
            ),
            RunPhase::ChunkRows => Ok(
                DiffAction::FetchChunkRows {
                    sql: sql_gen::build_range_rows_query(
                        self.diff.ref_table.as_str(),
                        self.setup.ref_columns.as_slice(),
                        self.setup.pk_cols.as_slice(),
                        self.timestamp_column.as_str(),
                        filter,
                    ),
                    bounds: self.bounds[self.chunk],
                },
            ),
            RunPhase::Check => {
                let end: usize = self.find_batch_end();
                let rows = &self.pending[self.checked..end];
                proof {
                    assert(rows@ =~= self.batch());
                    assert forall|i: int| 0 <= i < rows@.len() implies sql_gen::keys_in_row(
                        self.setup.ref_columns@,
                        self.setup.pk_cols@,
                        (#[trigger] rows@[i])@,
                    ) by {
                        assert(rows@[i] == self.pending@[self.checked + i]);
                        self.setup.lemma_ref_keys(rows@[i]@);
                    }
                }
                Ok(
                    DiffAction::FetchTarget {
                        sql: sql_gen::build_lookup_query(
                            self.diff.target_table.as_str(),
                            self.setup.target_columns.as_slice(),
                            self.setup.ref_columns.as_slice(),
                            self.setup.pk_cols.as_slice(),
                            rows,
                        ),
                    },
                )
            },
            RunPhase::Done => Ok(DiffAction::Finish(self.stats)),
        }
    }

    fn find_batch_end(&self) -> (r: usize)
        requires
            self.checked <= self.pending@.len(),
        ensures
            r == batch_end(
                self.checked as int,
                self.diff.chunk_size as int,
                self.pending@.len() as int,
            ),
    {
        let total: usize = self.pending.len();
        if total - self.checked <= self.diff.chunk_size {
            total
        } else {
            self.checked + self.diff.chunk_size
        }
    }

    /// Goes on to the next chunk.
    fn next_chunk(&mut self)
        requires
            old(self).valid(),
            old(self).hashed,
            old(self).chunk < old(self).bounds@.len(),
        ensures
            final(self).valid(),
            final(self).same_task(*old(self)),
            final(self).chunk == old(self).chunk + 1,
            final(self).phase == phase_at_chunk(old(self).chunk + 1, old(self).bounds@.len() as int),
            final(self).stats == old(self).stats,
            final(self).pending == old(self).pending,
            final(self).checked == old(self).checked,
            final(self).keys == old(self).keys,
    {
        let total: usize = self.bounds.len();
        self.chunk = self.chunk + 1;
        self.phase = if self.chunk < total {
            RunPhase::Hashes
        } else {
            RunPhase::Done
        };
    }

    /// Takes the rows that were fetched from the reference: all of them are to be checked, or
    /// those whose hashes differ where hashes were compared.
    pub fn take_rows(&mut self, rows: Vec<Row>)
        requires
            old(self).valid(),
            old(self).phase is Rows || old(self).phase is ChunkRows,
            rows_fit(rows@, old(self).setup.ref_columns@),
        ensures
            final(self).valid(),
            final(self).same_task(*old(self)),
            final(self).stats == old(self).stats,
            final(self).checked == 0,
            final(self).pending@ == if old(self).phase is Rows {
                rows@
            } else {
                rows@.filter(
                    has_key_in(
                        old(self).setup.ref_columns@,
                        old(self).setup.pk_cols@,
                        old(self).keys@,
                    ),
                )
            },
            final(self).pending@.len() > 0 ==> final(self).phase is Check && final(self).chunk == old(self).chunk,
            final(self).pending@.len() == 0 && old(self).phase is Rows ==> final(self).phase is Done,
            final(self).pending@.len() == 0 && old(self).phase is ChunkRows ==> final(self).chunk
                == old(self).chunk + 1 && final(self).phase == phase_at_chunk(
                old(self).chunk + 1,
                old(self).bounds@.len() as int,
            ),
    {
        let ghost given = rows@;
        self.checked = 0;
        if self.hashed {
            proof {
                assert forall|i: int| 0 <= i < rows@.len() implies sql_gen::keys_in_row(
                    self.setup.ref_columns@,
                    self.setup.pk_cols@,
                    (#[trigger] rows@[i])@,
                ) by {
                    self.setup.lemma_ref_keys(rows@[i]@);
                }
            }
            let kept = rows_with_keys(
                rows,
                self.setup.ref_columns.as_slice(),
                self.setup.pk_cols.as_slice(),
                &self.keys,
            );
            proof {
                let keep = has_key_in(self.setup.ref_columns@, self.setup.pk_cols@, self.keys@);
                assert forall|i: int| 0 <= i < kept@.len() implies (#[trigger] kept@[i])@.len()
                    == self.setup.ref_columns@.len() by {
                    given.lemma_filter_contains_rev(keep, kept@[i]);
                    let j = given.index_of(kept@[i]);
                    assert(given[j]@.len() == self.setup.ref_columns@.len());
                }
            }
            let none = kept.len() == 0;
            self.pending = kept;
            if none {
                self.next_chunk();
            } else {
                self.phase = RunPhase::Check;
            }
        } else {
            self.phase = if rows.len() == 0 {
                RunPhase::Done
            } else {
                RunPhase::Check
            };
            self.pending = rows;
        }
    }

    /// Takes the hashes of a chunk from both tables. Where none differs the next chunk follows.
    pub fn take_hashes(&mut self, reference: Vec<HashedKey>, target: Vec<HashedKey>)
        requires
            old(self).valid(),
            old(self).phase is Hashes,
        ensures
            final(self).valid(),
            final(self).same_task(*old(self)),
            final(self).stats == old(self).stats,
            final(self).keys@ == differing_keys(md5_map(reference@), md5_map(target@)),
            if final(self).keys@ == Set::<Seq<char>>::empty() {
                final(self).chunk == old(self).chunk + 1 && final(self).phase == phase_at_chunk(
                    old(self).chunk + 1,
                    old(self).bounds@.len() as int,
                )
            } else {
                final(self).chunk == old(self).chunk && final(self).phase is ChunkRows
            },
    {
        let keys = find_differing_keys(reference.as_slice(), target.as_slice());
        let n: usize = keys.len();
        proof {
            if n == 0 {
                assert(keys@ =~= Set::<Seq<char>>::empty());
            } else {
                assert(keys@.contains(keys.order()[0])) by {
                    assert(keys.order().contains(keys.order()[0]));
                }
            }
        }
        self.keys = keys;
        if n == 0 {
            self.next_chunk();
        } else {
            self.phase = RunPhase::ChunkRows;
        }
    }

    /// Takes the rows of the target that have the keys of the rows that are checked, and says
    /// what is to be written of these.
    pub fn take_target_rows(&mut self, target_rows: Vec<Row>) -> (r: Result<ChunkOutput, DataDiffError>)
        requires
            old(self).valid(),
            old(self).phase is Check,
            rows_fit(target_rows@, old(self).setup.target_columns@),
            old(self).stats.inserts + old(self).batch().len() <= u64::MAX,
            old(self).stats.updates + old(self).batch().len() <= u64::MAX,
        ensures
            final(self).valid(),
            final(self).same_task(*old(self)),
            final(self).pending == old(self).pending,
            ({
                let changes = row_changes(
                    old(self).diff,
                    old(self).setup,
                    old(self).exclude@,
                    target_rows@,
                    old(self).batch(),
                );
                let head = header(old(self).diff.target_table@);
                let end = batch_end(
                    old(self).checked as int,
                    old(self).diff.chunk_size as int,
                    old(self).pending@.len() as int,
                );
                match r {
                    Ok(out) => {
                        &&& !old(self).diff.cancelled
                        &&& out.inserts@ == script(
                            head,
                            inserted(changes),
                            "\n\n"@,
                            old(self).stats.inserts == 0,
                        )
                        &&& out.updates@ == script(
                            head,
                            updated(changes),
                            "\n\n"@,
                            old(self).stats.updates == 0,
                        )
                        &&& final(self).stats.inserts == old(self).stats.inserts + inserted(changes).len()
                        &&& final(self).stats.updates == old(self).stats.updates + updated(changes).len()
                        &&& final(self).checked == end
                        &&& if end < old(self).pending@.len() {
                            final(self).phase is Check && final(self).chunk == old(self).chunk
                        } else if old(self).hashed {
                            final(self).chunk == old(self).chunk + 1 && final(self).phase == phase_at_chunk(
                                old(self).chunk + 1,
                                old(self).bounds@.len() as int,
                            )
                        } else {
                            final(self).phase is Done && final(self).chunk == old(self).chunk
                        }
                    },
                    Err(e) => old(self).diff.cancelled && e is Cancelled && *final(self) == *old(self),
                }
            }),
    {
        let end: usize = self.find_batch_end();
        let mut stats = self.stats;
        let rows = &self.pending[self.checked..end];
        proof {
            assert(rows@ =~= self.batch());
            assert forall|i: int| 0 <= i < rows@.len() implies (#[trigger] rows@[i])@.len()
                == self.setup.ref_columns@.len() by {
                assert(rows@[i] == self.pending@[self.checked + i]);
            }
        }
        let checked = self.diff.check_rows(
            &self.setup,
            &self.exclude,
            rows,
            target_rows.as_slice(),
            &mut stats,
        );
        match checked {
            Err(e) => Err(e),
            Ok(out) => {
                self.stats = stats;
                self.checked = end;
                if end == self.pending.len() {
                    if self.hashed {
                        self.phase = RunPhase::Done;
                        self.next_chunk();
                    } else {
                        self.phase = RunPhase::Done;
                    }
                }
                Ok(out)
            },
        }
    }
}

proof fn lemma_lines_add(a: Seq<Seq<char>>, b: Seq<Seq<char>>, ending: Seq<char>)
    ensures
        lines(a + b, ending) == lines(a, ending) + lines(b, ending),
    decreases b.len(),
{
    if b.len() == 0 {
        assert(a + b =~= a);
        assert(lines(a, ending) + Seq::<char>::empty() =~= lines(a, ending));
    } else {
        assert((a + b).drop_last() =~= a + b.drop_last());
        lemma_lines_add(a, b.drop_last(), ending);
        let x = lines(a, ending);
        let y = lines(b.drop_last(), ending);
        let z = b.last() + ending;
        assert((x + y) + z =~= x + (y + z));
    }
}

/// The statements of changes are those of the first and then those of the rest.
pub proof fn lemma_statements_add(a: Seq<RowChange>, b: Seq<RowChange>)
    ensures
        inserted(a + b) == inserted(a) + inserted(b),
        updated(a + b) == updated(a) + updated(b),
    decreases b.len(),
{
    if b.len() == 0 {
        assert(a + b =~= a);
        assert(inserted(a) + Seq::<Seq<char>>::empty() =~= inserted(a));
        assert(updated(a) + Seq::<Seq<char>>::empty() =~= updated(a));
    } else {
        let c = b.drop_last();
        assert((a + b).drop_last() =~= a + c);
        lemma_statements_add(a, c);
        match b.last() {
            RowChange::Insert(sql) => {
                assert((inserted(a) + inserted(c)).push(sql) =~= inserted(a) + inserted(c).push(sql));
            },
            RowChange::Update(sql) => {
                assert((updated(a) + updated(c)).push(sql) =~= updated(a) + updated(c).push(sql));
            },
            RowChange::Same => {},
        }
    }
}

/// What is written does not depend on how rows are split into batches: the scripts of two
/// batches, one after the other, are the scripts of all their rows, with the header once.
pub proof fn batches_add_up(a: Seq<RowChange>, b: Seq<RowChange>, head: Seq<char>, ending: Seq<char>, first: bool)
    ensures
        script(head, inserted(a + b), ending, first) == script(head, inserted(a), ending, first) + script(
            head,
            inserted(b),
            ending,
            first && inserted(a).len() == 0,
        ),
        script(head, updated(a + b), ending, first) == script(head, updated(a), ending, first) + script(
            head,
            updated(b),
            ending,
            first && updated(a).len() == 0,
        ),
{
    lemma_statements_add(a, b);
    lemma_scripts_add(head, inserted(a), inserted(b), ending, first);
    lemma_scripts_add(head, updated(a), updated(b), ending, first);
}

/// A script is that of the first statements and then that of the rest, with the header once.
pub proof fn lemma_scripts_add(head: Seq<char>, a: Seq<Seq<char>>, b: Seq<Seq<char>>, ending: Seq<char>, first: bool)
    ensures
        script(head, a + b, ending, first) == script(head, a, ending, first) + script(
            head,
            b,
            ending,
            first && a.len() == 0,
        ),
{
    lemma_lines_add(a, b, ending);
    if a.len() == 0 {
        assert(a + b =~= b);
        assert(Seq::<char>::empty() + script(head, b, ending, first) =~= script(head, b, ending, first));
    } else if b.len() == 0 {
        assert(a + b =~= a);
        assert(script(head, a, ending, first) + Seq::<char>::empty() =~= script(head, a, ending, first));
    } else if first {
        assert(head + (lines(a, ending) + lines(b, ending)) =~= (head + lines(a, ending)) + lines(b, ending));
    }
}

/// A row is inserted exactly where no row of the target has its key, and updated exactly where
/// the first row that has its key differs in a column that both have and that is not ignored.
pub proof fn changes_say_what_differs(
    diff: TableDataDiff,
    setup: TableSetup,
    exclude: Set<Seq<char>>,
    target_rows: Seq<Row>,
    row: Row,
)
    ensures
        ({
            let change = row_change(diff, setup, exclude, target_rows, row);
            let m = match_index(
                target_rows,
                setup.target_columns@,
                row@,
                setup.ref_columns@,
                setup.pk_cols@,
            );
            &&& change is Insert <==> forall|i: int|
                0 <= i < target_rows.len() ==> !same_key(
                    (#[trigger] target_rows[i])@,
                    setup.target_columns@,
                    row@,
                    setup.ref_columns@,
                    setup.pk_cols@,
                )
            &&& change is Update <==> m < target_rows.len() && exists|c: int|
                0 <= c < setup.ref_columns@.len() && #[trigger] is_modified(
                    row@,
                    target_rows[m]@,
                    setup.ref_columns@,
                    setup.target_columns@,
                    ignored_columns(diff, setup.ref_columns@),
                )(c)
        }),
{
    let m = match_index(target_rows, setup.target_columns@, row@, setup.ref_columns@, setup.pk_cols@);
    lemma_match_index(target_rows, setup.target_columns@, row@, setup.ref_columns@, setup.pk_cols@);
    if m < target_rows.len() {
        let keep = is_modified(
            row@,
            target_rows[m]@,
            setup.ref_columns@,
            setup.target_columns@,
            ignored_columns(diff, setup.ref_columns@),
        );
        collections::lemma_picked(setup.ref_columns@.len(), keep);
        let places = collections::picked(setup.ref_columns@.len(), keep);
        if places.len() > 0 {
            assert(keep(places[0]));
        }
        assert forall|c: int| 0 <= c < setup.ref_columns@.len() && #[trigger] keep(c) implies places.len() > 0 by {
            assert(places.contains(c));
        }
        assert(places.len() > 0 <==> exists|c: int| 0 <= c < setup.ref_columns@.len() && #[trigger] keep(c));
    }
}

/// Where identity columns are always left out, an UPDATE sets none of them and an INSERT names
/// none of them.
pub proof fn identity_columns_are_left_out(
    diff: TableDataDiff,
    setup: TableSetup,
    ref_row: Row,
    target_row: Row,
    c: int,
)
    requires
        diff.include_identity_columns == Some(false),
        0 <= c < setup.ref_columns@.len(),
        setup.ref_columns@[c].is_identity,
    ensures
        !is_modified(
            ref_row@,
            target_row@,
            setup.ref_columns@,
            setup.target_columns@,
            ignored_columns(diff, setup.ref_columns@),
        )(c),
        exclude_set(diff, setup.ref_columns@, setup.real_pk_names@).contains(
            outside::lowercase_text(setup.ref_columns@[c].name@),
        ),
{
    assert(is_identity_name(setup.ref_columns@, outside::lowercase_text(setup.ref_columns@[c].name@)));
}

/// Where the target holds the rows of the reference, in the same columns, no two with the same
/// key, and each value equal to itself, there is nothing to write.
pub proof fn identical_tables_need_no_statements(
    diff: TableDataDiff,
    setup: TableSetup,
    exclude: Set<Seq<char>>,
    rows: Seq<Row>,
)
    requires
        setup.valid(),
        setup.target_columns@ == setup.ref_columns@,
        distinct_names(setup.ref_columns@),
        rows_fit(rows, setup.ref_columns@),
        values_are_comparable(rows, setup.ref_columns@),
        matches_are_single(setup, rows, rows),
    ensures
        inserted(row_changes(diff, setup, exclude, rows, rows)).len() == 0,
        updated(row_changes(diff, setup, exclude, rows, rows)).len() == 0,
{
    let columns = setup.ref_columns@;
    let keys = setup.pk_cols@;
    let changes = row_changes(diff, setup, exclude, rows, rows);
    assert forall|i: int| 0 <= i < rows.len() implies #[trigger] changes[i] is Same by {
        let row = rows[i];
        lemma_match_index(rows, columns, row@, columns, keys);
        let m = match_index(rows, columns, row@, columns, keys);
        lemma_own_key(setup, rows, i);
        if m < i {
            lemma_own_key(setup, rows, m);
            assert(same_key(rows[m]@, columns, rows[m]@, columns, keys));
            assert(same_key(rows[m]@, columns, rows[i]@, columns, keys));
        }
        assert(m == i);
        let keep = is_modified(row@, row@, columns, columns, ignored_columns(diff, columns));
        collections::lemma_picked(columns.len(), keep);
        let places = collections::picked(columns.len(), keep);
        if places.len() > 0 {
            let c = places[0];
            assert(keep(c));
            lemma_own_place(columns, c);
            assert(types::values_equal(rows[i]@[c], rows[i]@[c]));
        }
    }
    lemma_nothing_asked(changes);
}

proof fn lemma_nothing_asked(changes: Seq<RowChange>)
    requires
        forall|i: int| 0 <= i < changes.len() ==> #[trigger] changes[i] is Same,
    ensures
        inserted(changes).len() == 0,
        updated(changes).len() == 0,
    decreases changes.len(),
{
    if changes.len() > 0 {
        assert(changes[changes.len() - 1] is Same);
        lemma_nothing_asked(changes.drop_last());
    }
}

/// Whether each key has as many values as there are key columns.
pub open spec fn keys_fit(rows: Seq<HashedKey>, pk_cols: Seq<ColumnInfo>) -> bool {
    forall|l: int| 0 <= l < rows.len() ==> (#[trigger] rows[l]).key@.len() == pk_cols.len()
}

/// The hash under a key is that of one of the rows that have the key.
proof fn lemma_md5_of_some(rows: Seq<HashedKey>, k: Seq<char>)
    requires
        md5_map(rows).contains_key(k),
    ensures
        exists|l: int|
            0 <= l < rows.len() && key_of_values((#[trigger] rows[l]).key@) == k && md5_map(rows)[k] == rows[l].md5@,
    decreases rows.len(),
{
    let n = rows.len() - 1;
    let less = rows.drop_last();
    if key_of_values(rows[n].key@) == k {
        assert(md5_map(rows)[k] == rows[n].md5@);
    } else {
        lemma_md5_of_some(less, k);
        let l = choose|l: int|
            0 <= l < less.len() && key_of_values((#[trigger] less[l]).key@) == k && md5_map(less)[k] == less[l].md5@;
        assert(rows[l] == less[l]);
    }
}

/// Under the key of a row there is a hash.
proof fn lemma_md5_of_row(rows: Seq<HashedKey>, j: int)
    requires
        0 <= j < rows.len(),
    ensures
        md5_map(rows).contains_key(key_of_values(rows[j].key@)),
    decreases rows.len(),
{
    if j < rows.len() - 1 {
        lemma_md5_of_row(rows.drop_last(), j);
        assert(rows.drop_last()[j] == rows[j]);
    }
}

/// Comparing hashes loses no difference: a row of the reference is among the rows that are
/// checked where the target has no row with its key and its hash, provided that no other row of
/// the reference has its key.
pub proof fn rows_with_other_hashes_are_checked(
    setup: TableSetup,
    rows: Seq<Row>,
    reference: Seq<HashedKey>,
    target: Seq<HashedKey>,
    i: int,
    j: int,
)
    requires
        keys_fit(reference, setup.pk_cols@),
        keys_fit(target, setup.pk_cols@),
        0 <= i < rows.len(),
        0 <= j < reference.len(),
        reference[j].key@ == sql_gen::key_values(setup.ref_columns@, setup.pk_cols@, rows[i]@),
        forall|l: int|
            0 <= l < reference.len() && l != j ==> !row_keys::alike((#[trigger] reference[l]).key@, reference[j].key@),
        forall|l: int|
            0 <= l < target.len() && row_keys::alike((#[trigger] target[l]).key@, reference[j].key@)
                ==> target[l].md5@ != reference[j].md5@,
    ensures
        rows.filter(
            has_key_in(
                setup.ref_columns@,
                setup.pk_cols@,
                differing_keys(md5_map(reference), md5_map(target)),
            ),
        ).contains(rows[i]),
{
    let key = row_key(rows[i]@, setup.ref_columns@, setup.pk_cols@);
    lemma_md5_of_row(reference, j);
    lemma_md5_of_some(reference, key);
    let l = choose|l: int|
        0 <= l < reference.len() && key_of_values((#[trigger] reference[l]).key@) == key && md5_map(reference)[key]
            == reference[l].md5@;
    row_keys::keys_tell_rows_apart(reference[l].key@, reference[j].key@);
    assert(md5_map(reference)[key] == reference[j].md5@);
    if md5_map(target).contains_key(key) {
        lemma_md5_of_some(target, key);
        let m = choose|m: int|
            0 <= m < target.len() && key_of_values((#[trigger] target[m]).key@) == key && md5_map(target)[key]
                == target[m].md5@;
        row_keys::keys_tell_rows_apart(target[m].key@, reference[j].key@);
    }
    rows.lemma_filter_contains(
        has_key_in(
            setup.ref_columns@,
            setup.pk_cols@,
            differing_keys(md5_map(reference), md5_map(target)),
        ),
        i,
    );
}

/// What an UPDATE makes of a row of the target: the columns that are modified get the values of
/// the reference. Both tables have the same columns.
pub open spec fn patched(
    target_row: Seq<RowValue>,
    ref_row: Seq<RowValue>,
    columns: Seq<ColumnInfo>,
    ignore: Set<Seq<char>>,
) -> Seq<RowValue> {
    Seq::new(
        target_row.len(),
        |c: int|
            if is_modified(ref_row, target_row, columns, columns, ignore)(c) {
                ref_row[c]
            } else {
                target_row[c]
            },
    )
}

/// The row of the target that a row of the reference is matched with.
pub open spec fn matched(setup: TableSetup, target_rows: Seq<Row>, row: Row) -> int {
    match_index(target_rows, setup.target_columns@, row@, setup.ref_columns@, setup.pk_cols@)
}

/// Whether a row of the reference is not in the target.
pub open spec fn is_new(setup: TableSetup, target_rows: Seq<Row>, rows: Seq<Row>) -> spec_fn(int) -> bool {
    |i: int| matched(setup, target_rows, rows[i]) == target_rows.len()
}

/// Whether the statements for rows of the reference turn the rows of the target into others:
/// a row that is matched is updated, one that is not stays, and rows that are not in the target
/// are added. Both tables have the same columns, and an INSERT names all of them.
pub open spec fn turned_into(
    diff: TableDataDiff,
    setup: TableSetup,
    rows: Seq<Row>,
    before: Seq<Row>,
    after: Seq<Row>,
) -> bool {
    let new_rows = collections::picked(rows.len(), is_new(setup, before, rows));
    &&& after.len() == before.len() + new_rows.len()
    &&& forall|m: int, i: int|
        0 <= m < before.len() && 0 <= i < rows.len() && matched(setup, before, #[trigger] rows[i]) == m ==> (
        #[trigger] after[m])@ == patched(
            before[m]@,
            rows[i]@,
            setup.ref_columns@,
            ignored_columns(diff, setup.ref_columns@),
        )
    &&& forall|m: int|
        0 <= m < before.len() && (forall|i: int|
            0 <= i < rows.len() ==> matched(setup, before, #[trigger] rows[i]) != m) ==> (#[trigger] after[m])@
            == before[m]@
    &&& forall|k: int|
        0 <= k < new_rows.len() ==> (#[trigger] after[before.len() + k])@ == rows[new_rows[k]]@
}

/// Whether no two columns have the same name, ASCII letters compared without case.
pub open spec fn distinct_names(columns: Seq<ColumnInfo>) -> bool {
    forall|c: int, d: int|
        0 <= c < columns.len() && 0 <= d < columns.len() && c != d ==> !types::column_is(
            #[trigger] columns[c],
            (#[trigger] columns[d]).name@,
        )
}

/// Whether each value of rows equals itself, as all do but what is not a number.
pub open spec fn values_are_comparable(rows: Seq<Row>, columns: Seq<ColumnInfo>) -> bool {
    forall|i: int, c: int|
        0 <= i < rows.len() && 0 <= c < columns.len() ==> types::values_equal(
            #[trigger] rows[i]@[c],
            rows[i]@[c],
        )
}

/// Whether no row of the target is matched by two rows of the reference.
pub open spec fn matches_are_single(setup: TableSetup, target_rows: Seq<Row>, rows: Seq<Row>) -> bool {
    forall|m: int, i: int, j: int|
        0 <= m < target_rows.len() && 0 <= i < j < rows.len() && same_key(
            (#[trigger] target_rows[m])@,
            setup.ref_columns@,
            (#[trigger] rows[i])@,
            setup.ref_columns@,
            setup.pk_cols@,
        ) ==> !same_key(
            target_rows[m]@,
            setup.ref_columns@,
            (#[trigger] rows[j])@,
            setup.ref_columns@,
            setup.pk_cols@,
        )
}

proof fn lemma_own_place(columns: Seq<ColumnInfo>, c: int)
    requires
        distinct_names(columns),
        0 <= c < columns.len(),
    ensures
        types::column_index(columns, columns[c].name@) == c,
{
    types::lemma_column_index(columns, columns[c].name@);
    let d = types::column_index(columns, columns[c].name@);
    assert(types::column_is(columns[c], columns[c].name@));
    if d != c {
        assert(types::column_is(columns[d], columns[c].name@));
    }
}

/// An UPDATE leaves the key of a row as it is, and leaves nothing to update.
proof fn lemma_patched(setup: TableSetup, t: Row, u: Row, r: Row, ignore: Set<Seq<char>>)
    requires
        setup.valid(),
        setup.target_columns@ == setup.ref_columns@,
        distinct_names(setup.ref_columns@),
        t@.len() == setup.ref_columns@.len(),
        r@.len() == setup.ref_columns@.len(),
        same_key(t@, setup.ref_columns@, r@, setup.ref_columns@, setup.pk_cols@),
        forall|c: int| 0 <= c < setup.ref_columns@.len() ==> types::values_equal(#[trigger] r@[c], r@[c]),
        u@ == patched(t@, r@, setup.ref_columns@, ignore),
    ensures
        forall|k: int|
            #![trigger setup.pk_cols@[k]]
            0 <= k < setup.pk_cols@.len() ==> u@[types::column_index(
                setup.ref_columns@,
                setup.pk_cols@[k].name@,
            )] == t@[types::column_index(setup.ref_columns@, setup.pk_cols@[k].name@)],
        modified_columns(r@, u@, setup.ref_columns@, setup.ref_columns@, ignore).len() == 0,
{
    let columns = setup.ref_columns@;
    assert forall|k: int|
        #![trigger setup.pk_cols@[k]]
        0 <= k < setup.pk_cols@.len() implies u@[types::column_index(columns, setup.pk_cols@[k].name@)]
        == t@[types::column_index(columns, setup.pk_cols@[k].name@)] by {
        let c = types::column_index(columns, setup.pk_cols@[k].name@);
        types::lemma_column_index(columns, setup.pk_cols@[k].name@);
        lemma_own_place(columns, c);
        assert(!is_modified(r@, t@, columns, columns, ignore)(c));
    }
    let keep = is_modified(r@, u@, columns, columns, ignore);
    collections::lemma_picked(columns.len(), keep);
    let places = collections::picked(columns.len(), keep);
    if places.len() > 0 {
        let c = places[0];
        assert(keep(c));
        lemma_own_place(columns, c);
        assert(types::values_equal(r@[c], r@[c]));
        if is_modified(r@, t@, columns, columns, ignore)(c) {
            assert(u@[c] == r@[c]);
        } else {
            assert(u@[c] == t@[c]);
        }
    }
}

/// The statements do what they are for: once they have run, a second comparison of the same rows
/// finds nothing to insert or update. The rows of the reference differ in their keys, each of
/// their values equals itself, and no row of the target is matched by two of them.
pub proof fn a_second_comparison_finds_nothing(
    diff: TableDataDiff,
    setup: TableSetup,
    exclude: Set<Seq<char>>,
    rows: Seq<Row>,
    before: Seq<Row>,
    after: Seq<Row>,
)
    requires
        setup.valid(),
        setup.target_columns@ == setup.ref_columns@,
        distinct_names(setup.ref_columns@),
        rows_fit(rows, setup.ref_columns@),
        rows_fit(before, setup.ref_columns@),
        values_are_comparable(rows, setup.ref_columns@),
        matches_are_single(setup, rows, rows),
        matches_are_single(setup, before, rows),
        turned_into(diff, setup, rows, before, after),
    ensures
        inserted(row_changes(diff, setup, exclude, after, rows)).len() == 0,
        updated(row_changes(diff, setup, exclude, after, rows)).len() == 0,
{
    let changes = row_changes(diff, setup, exclude, after, rows);
    assert forall|i: int| 0 <= i < rows.len() implies #[trigger] changes[i] is Same by {
        lemma_settled(diff, setup, exclude, rows, before, after, i);
    }
    lemma_nothing_asked(changes);
}

/// A row has its own key.
proof fn lemma_own_key(setup: TableSetup, rows: Seq<Row>, i: int)
    requires
        setup.valid(),
        rows_fit(rows, setup.ref_columns@),
        values_are_comparable(rows, setup.ref_columns@),
        0 <= i < rows.len(),
    ensures
        same_key(rows[i]@, setup.ref_columns@, rows[i]@, setup.ref_columns@, setup.pk_cols@),
{
    let columns = setup.ref_columns@;
    assert forall|k: int|
        #![trigger setup.pk_cols@[k]]
        0 <= k < setup.pk_cols@.len() implies types::values_equal(
        rows[i]@[types::column_index(columns, setup.pk_cols@[k].name@)],
        rows[i]@[types::column_index(columns, setup.pk_cols@[k].name@)],
    ) by {
        types::lemma_column_index(columns, setup.pk_cols@[k].name@);
        let c = types::column_index(columns, setup.pk_cols@[k].name@);
        assert(types::values_equal(rows[i]@[c], rows[i]@[c]));
    }
}

/// Rows of the target keep their keys.
proof fn lemma_keys_stay(
    diff: TableDataDiff,
    setup: TableSetup,
    rows: Seq<Row>,
    before: Seq<Row>,
    after: Seq<Row>,
    m: int,
    row: Row,
)
    requires
        setup.valid(),
        setup.target_columns@ == setup.ref_columns@,
        distinct_names(setup.ref_columns@),
        rows_fit(rows, setup.ref_columns@),
        rows_fit(before, setup.ref_columns@),
        values_are_comparable(rows, setup.ref_columns@),
        turned_into(diff, setup, rows, before, after),
        0 <= m < before.len(),
    ensures
        same_key(after[m]@, setup.ref_columns@, row@, setup.ref_columns@, setup.pk_cols@) <==> same_key(
            before[m]@,
            setup.ref_columns@,
            row@,
            setup.ref_columns@,
            setup.pk_cols@,
        ),
{
    let columns = setup.ref_columns@;
    let keys = setup.pk_cols@;
    if exists|i: int| 0 <= i < rows.len() && matched(setup, before, #[trigger] rows[i]) == m {
        let i = choose|i: int| 0 <= i < rows.len() && matched(setup, before, #[trigger] rows[i]) == m;
        lemma_match_index(before, columns, rows[i]@, columns, keys);
        assert(after[m]@ == patched(before[m]@, rows[i]@, columns, ignored_columns(diff, columns)));
        assert forall|c: int| 0 <= c < columns.len() implies types::values_equal(
            #[trigger] rows[i]@[c],
            rows[i]@[c],
        ) by {}
        lemma_patched(setup, before[m], after[m], rows[i], ignored_columns(diff, columns));
        assert forall|k: int|
            #![trigger keys[k]]
            0 <= k < keys.len() implies after[m]@[types::column_index(columns, keys[k].name@)]
            == before[m]@[types::column_index(columns, keys[k].name@)] by {}
    } else {
        assert(after[m]@ == before[m]@);
    }
}

#[verifier::spinoff_prover]
#[verifier::rlimit(40)]
proof fn lemma_settled(
    diff: TableDataDiff,
    setup: TableSetup,
    exclude: Set<Seq<char>>,
    rows: Seq<Row>,
    before: Seq<Row>,
    after: Seq<Row>,
    i: int,
)
    requires
        setup.valid(),
        setup.target_columns@ == setup.ref_columns@,
        distinct_names(setup.ref_columns@),
        rows_fit(rows, setup.ref_columns@),
        rows_fit(before, setup.ref_columns@),
        values_are_comparable(rows, setup.ref_columns@),
        matches_are_single(setup, rows, rows),
        matches_are_single(setup, before, rows),
        turned_into(diff, setup, rows, before, after),
        0 <= i < rows.len(),
    ensures
        row_change(diff, setup, exclude, after, rows[i]) is Same,
{
    let columns = setup.ref_columns@;
    let keys = setup.pk_cols@;
    let ignore = ignored_columns(diff, columns);
    let row = rows[i];
    let new_rows = collections::picked(rows.len(), is_new(setup, before, rows));
    collections::lemma_picked(rows.len(), is_new(setup, before, rows));
    lemma_match_index(before, columns, row@, columns, keys);
    lemma_match_index(after, columns, row@, columns, keys);
    lemma_own_key(setup, rows, i);
    let m = matched(setup, before, row);
    let a = matched(setup, after, row);
    assert forall|k: int| 0 <= k < before.len() implies (same_key(
        (#[trigger] after[k])@,
        columns,
        row@,
        columns,
        keys,
    ) <==> same_key(before[k]@, columns, row@, columns, keys)) by {
        lemma_keys_stay(diff, setup, rows, before, after, k, row);
    }
    assert forall|c: int| 0 <= c < columns.len() implies types::values_equal(#[trigger] row@[c], row@[c]) by {
        assert(types::values_equal(rows[i]@[c], rows[i]@[c]));
    }
    if m < before.len() {
        assert(same_key(after[m]@, columns, row@, columns, keys));
        if a < m {
            assert(same_key(before[a]@, columns, row@, columns, keys));
        }
        assert(a == m);
        assert(matched(setup, before, rows[i]) == m);
        assert(after[m]@ == patched(before[m]@, row@, columns, ignore));
        lemma_patched(setup, before[m], after[m], row, ignore);
    } else {
        assert(is_new(setup, before, rows)(i));
        assert(new_rows.contains(i));
        let k = new_rows.index_of(i);
        let place = before.len() + k;
        assert(after[before.len() + k]@ == rows[new_rows[k]]@);
        assert(after[place]@ == row@);
        assert(same_key(after[place]@, columns, row@, columns, keys));
        if a < before.len() {
            assert(same_key(before[a]@, columns, row@, columns, keys));
        } else if a < place {
            let l = a - before.len();
            let j = new_rows[l];
            assert(after[before.len() + l]@ == rows[new_rows[l]]@);
            assert(new_rows[l] < new_rows[k]);
            assert(same_key(rows[j]@, columns, rows[i]@, columns, keys));
            lemma_own_key(setup, rows, j);
            assert(same_key(rows[j]@, columns, rows[j]@, columns, keys));
        }
        assert(a == place);
        let keep = is_modified(row@, after[a]@, columns, columns, ignore);
        collections::lemma_picked(columns.len(), keep);
        let places = collections::picked(columns.len(), keep);
        if places.len() > 0 {
            let c = places[0];
            assert(keep(c));
            lemma_own_place(columns, c);
            assert(types::values_equal(row@[c], row@[c]));
        }
    }
}

} // verus!
