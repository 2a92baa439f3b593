//! Laws of values: which of them are equal, and as what they are read.

use vstd::prelude::*;

use crate::instant::{CalendarDate, TimeOfDay, Timestamp};
use crate::metadata;
use crate::text_laws;
use crate::types;
use crate::types::{ColumnInfo, Field, FieldKind, PgType, Real32, Real64, RealClass, RowValue};

verus! {

/// The kinds of values, by numbers.
pub open spec fn kind(value: RowValue) -> int {
    match value {
        RowValue::Null => 0,
        RowValue::Bool(_) => 1,
        RowValue::I16(_) => 2,
        RowValue::I32(_) => 3,
        RowValue::I64(_) => 4,
        RowValue::F32(_) => 5,
        RowValue::F64(_) => 6,
        RowValue::Text(_) => 7,
        RowValue::Bytes(_) => 8,
        RowValue::Timestamp(_) => 9,
        RowValue::TimestampTz(_) => 10,
        RowValue::Date(_) => 11,
        RowValue::Time(_) => 12,
        RowValue::Uuid(_) => 13,
        RowValue::Json(_) => 14,
        RowValue::Numeric(_) => 15,
    }
}

/// Values of two kinds are not equal; so a null equals a null, and no value that is not one.
pub proof fn values_of_two_kinds_are_not_equal(a: RowValue, b: RowValue)
    ensures
        types::values_equal(a, b) ==> kind(a) == kind(b),
        a is Null && b is Null ==> types::values_equal(a, b),
        a is Null && !(b is Null) ==> !types::values_equal(a, b) && !types::values_equal(b, a),
{
}

/// Values of one kind are equal exactly where they hold the same.
pub proof fn values_of_one_kind_are_equal_where_they_hold_the_same()
    ensures
        forall|x: bool, y: bool| #[trigger]
            types::values_equal(RowValue::Bool(x), RowValue::Bool(y)) <==> x == y,
        forall|x: i16, y: i16| #[trigger] types::values_equal(RowValue::I16(x), RowValue::I16(y)) <==> x == y,
        forall|x: i32, y: i32| #[trigger] types::values_equal(RowValue::I32(x), RowValue::I32(y)) <==> x == y,
        forall|x: i64, y: i64| #[trigger] types::values_equal(RowValue::I64(x), RowValue::I64(y)) <==> x == y,
        forall|x: String, y: String| #[trigger]
            types::values_equal(RowValue::Text(x), RowValue::Text(y)) <==> x@ == y@,
        forall|x: String, y: String| #[trigger]
            types::values_equal(RowValue::Numeric(x), RowValue::Numeric(y)) <==> x@ == y@,
        forall|x: Vec<u8>, y: Vec<u8>| #[trigger]
            types::values_equal(RowValue::Bytes(x), RowValue::Bytes(y)) <==> x@ == y@,
        forall|x: Timestamp, y: Timestamp| #[trigger]
            types::values_equal(RowValue::Timestamp(x), RowValue::Timestamp(y)) <==> x == y,
        forall|x: Timestamp, y: Timestamp| #[trigger]
            types::values_equal(RowValue::TimestampTz(x), RowValue::TimestampTz(y)) <==> x == y,
        forall|x: CalendarDate, y: CalendarDate| #[trigger]
            types::values_equal(RowValue::Date(x), RowValue::Date(y)) <==> x == y,
        forall|x: TimeOfDay, y: TimeOfDay| #[trigger]
            types::values_equal(RowValue::Time(x), RowValue::Time(y)) <==> x == y,
        forall|x: u128, y: u128| #[trigger] types::values_equal(RowValue::Uuid(x), RowValue::Uuid(y)) <==> x == y,
{
}

/// Whether the bits of a single precision number stand for no number: the exponent is all ones,
/// and the fraction is not zero.
pub open spec fn is_nan32(bits: u32) -> bool {
    bits / 0x80_0000 % 256 == 255 && bits % 0x80_0000 != 0
}

/// Whether the bits of a double precision number stand for no number.
pub open spec fn is_nan64(bits: u64) -> bool {
    bits / 0x10_0000_0000_0000 % 2048 == 2047 && bits % 0x10_0000_0000_0000 != 0
}

/// The class of a single precision number follows from its sign, exponent and fraction.
pub proof fn classes_follow_from_the_parts_of_a_single(bits: u32)
    ensures
        types::class32(bits) == RealClass::NotANumber <==> is_nan32(bits),
        types::class32(bits) == RealClass::PositiveInfinity <==> bits == 255 * 0x80_0000,
        types::class32(bits) == RealClass::NegativeInfinity <==> bits == 0x8000_0000 + 255 * 0x80_0000,
        types::class32(bits) == RealClass::Zero <==> bits == 0 || bits == 0x8000_0000,
{
    assert(bits / 0x80_0000 % 256 == (bits % 0x8000_0000) / 0x80_0000);
    assert(bits % 0x80_0000 == (bits % 0x8000_0000) % 0x80_0000);
}

/// The class of a double precision number follows from its sign, exponent and fraction.
pub proof fn classes_follow_from_the_parts_of_a_double(bits: u64)
    ensures
        types::class64(bits) == RealClass::NotANumber <==> is_nan64(bits),
        types::class64(bits) == RealClass::PositiveInfinity <==> bits == 2047 * 0x10_0000_0000_0000,
        types::class64(bits) == RealClass::NegativeInfinity <==> bits == 0x8000_0000_0000_0000 + 2047
            * 0x10_0000_0000_0000,
        types::class64(bits) == RealClass::Zero <==> bits == 0 || bits == 0x8000_0000_0000_0000,
{
    assert(bits / 0x10_0000_0000_0000 % 2048 == (bits % 0x8000_0000_0000_0000) / 0x10_0000_0000_0000);
    assert(bits % 0x10_0000_0000_0000 == (bits % 0x8000_0000_0000_0000) % 0x10_0000_0000_0000);
}

/// Floating point numbers are equal where their bits are, but for what is no number, which equals
/// nothing, and the two zeros, which are equal.
pub proof fn floats_are_equal_by_their_bits(x: Real32, y: Real32, u: Real64, v: Real64)
    ensures
        types::values_equal(RowValue::F32(x), RowValue::F32(y)) <==> !is_nan32(x.bits) && !is_nan32(y.bits) && (x.bits
            == y.bits || (x.bits % 0x8000_0000 == 0 && y.bits % 0x8000_0000 == 0)),
        types::values_equal(RowValue::F64(u), RowValue::F64(v)) <==> !is_nan64(u.bits) && !is_nan64(v.bits) && (u.bits
            == v.bits || (u.bits % 0x8000_0000_0000_0000 == 0 && v.bits % 0x8000_0000_0000_0000 == 0)),
{
    classes_follow_from_the_parts_of_a_single(x.bits);
    classes_follow_from_the_parts_of_a_single(y.bits);
    classes_follow_from_the_parts_of_a_double(u.bits);
    classes_follow_from_the_parts_of_a_double(v.bits);
}

/// Equality goes both ways and from one to the next, and each value equals itself, but for what
/// is no number. Nothing is said of JSON, of which only a call tells whether it is equal.
pub proof fn equality_is_an_equivalence(a: RowValue, b: RowValue, c: RowValue)
    requires
        !(a is Json) && !(b is Json) && !(c is Json),
    ensures
        types::values_equal(a, b) ==> types::values_equal(b, a),
        types::values_equal(a, b) && types::values_equal(b, c) ==> types::values_equal(a, c),
        types::values_equal(a, a) <==> match a {
            RowValue::F32(x) => !is_nan32(x.bits),
            RowValue::F64(x) => !is_nan64(x.bits),
            _ => true,
        },
{
    if let RowValue::F32(x) = a {
        classes_follow_from_the_parts_of_a_single(x.bits);
    }
    if let RowValue::F64(x) = a {
        classes_follow_from_the_parts_of_a_double(x.bits);
    }
}

/// The kind that a field was read as.
pub open spec fn kind_of_field(field: Field) -> Option<FieldKind> {
    match field {
        Field::Null => None,
        Field::Unreadable => None,
        Field::Bool(_) => Some(FieldKind::Bool),
        Field::I16(_) => Some(FieldKind::I16),
        Field::I32(_) => Some(FieldKind::I32),
        Field::I64(_) => Some(FieldKind::I64),
        Field::F32(_) => Some(FieldKind::F32),
        Field::F64(_) => Some(FieldKind::F64),
        Field::Text(_) => Some(FieldKind::Text),
        Field::Bytes(_) => Some(FieldKind::Bytes),
        Field::Timestamp(_) => Some(FieldKind::Timestamp),
        Field::TimestampTz(_) => Some(FieldKind::TimestampTz),
        Field::Date(_) => Some(FieldKind::Date),
        Field::Time(_) => Some(FieldKind::Time),
        Field::Uuid(_) => Some(FieldKind::Uuid),
        Field::Json(_) => Some(FieldKind::Json),
    }
}

/// A column that was read as its type asks for has the value that was read, and is null exactly
/// where it was read as something else, or not at all. Only a number of arbitrary precision is
/// not the text as which it was read.
pub proof fn a_value_is_what_was_read(field: Field, pg_type: PgType)
    ensures
        ({
            let value = types::value_of_field(field, pg_type);
            let fits = kind_of_field(field) == Some(types::kind_of_type(pg_type));
            &&& value is Null <==> !fits
            &&& fits ==> match field {
                Field::Bool(v) => value == RowValue::Bool(v),
                Field::I16(v) => value == RowValue::I16(v),
                Field::I32(v) => value == RowValue::I32(v),
                Field::I64(v) => value == RowValue::I64(v),
                Field::F32(v) => value == RowValue::F32(v),
                Field::F64(v) => value == RowValue::F64(v),
                Field::Text(v) => value == if pg_type == PgType::Numeric {
                    RowValue::Numeric(v)
                } else {
                    RowValue::Text(v)
                },
                Field::Bytes(v) => value == RowValue::Bytes(v),
                Field::Timestamp(v) => value == RowValue::Timestamp(v),
                Field::TimestampTz(v) => value == RowValue::TimestampTz(v),
                Field::Date(v) => value == RowValue::Date(v),
                Field::Time(v) => value == RowValue::Time(v),
                Field::Uuid(v) => value == RowValue::Uuid(v),
                Field::Json(v) => value == RowValue::Json(v),
                Field::Null => false,
                Field::Unreadable => false,
            }
        }),
{
}

/// The types that are read as each kind.
pub proof fn kinds_are_read_for_their_types(t: PgType)
    ensures
        types::kind_of_type(t) == FieldKind::Bool <==> t == PgType::Bool,
        types::kind_of_type(t) == FieldKind::I16 <==> t == PgType::Int2,
        types::kind_of_type(t) == FieldKind::I32 <==> t == PgType::Int4 || t == PgType::Oid,
        types::kind_of_type(t) == FieldKind::I64 <==> t == PgType::Int8,
        types::kind_of_type(t) == FieldKind::F32 <==> t == PgType::Float4,
        types::kind_of_type(t) == FieldKind::F64 <==> t == PgType::Float8,
        types::kind_of_type(t) == FieldKind::Bytes <==> t == PgType::Bytea,
        types::kind_of_type(t) == FieldKind::Timestamp <==> t == PgType::Timestamp,
        types::kind_of_type(t) == FieldKind::TimestampTz <==> t == PgType::Timestamptz,
        types::kind_of_type(t) == FieldKind::Date <==> t == PgType::Date,
        types::kind_of_type(t) == FieldKind::Time <==> t == PgType::Time,
        types::kind_of_type(t) == FieldKind::Uuid <==> t == PgType::Uuid,
        types::kind_of_type(t) == FieldKind::Json <==> t == PgType::Json || t == PgType::Jsonb,
{
}

/// A row has one value for each column, from the field at the same place and the type of that
/// column.
pub proof fn a_row_is_read_column_by_column(fields: Seq<Field>, columns: Seq<ColumnInfo>, i: int)
    requires
        0 <= i < columns.len(),
    ensures
        types::values_of_fields(fields, columns).len() == columns.len(),
        types::values_of_fields(fields, columns)[i] == types::value_of_field(fields[i], columns[i].pg_type),
{
}

/// A type is found by the name by which it is shown.
pub proof fn a_type_is_found_by_its_name(t: PgType)
    ensures
        metadata::type_of_name(types::pg_type_text(t)) == t,
{
    lemma_names();
}

/// The names of the catalog for each type.
pub proof fn types_have_these_names(s: Seq<char>)
    ensures
        metadata::type_of_name(s) == PgType::Bool <==> s == "bool"@ || s == "boolean"@,
        metadata::type_of_name(s) == PgType::Int2 <==> s == "int2"@ || s == "smallint"@,
        metadata::type_of_name(s) == PgType::Int4 <==> s == "int4"@ || s == "integer"@ || s == "int"@ || s
            == "serial"@,
        metadata::type_of_name(s) == PgType::Int8 <==> s == "int8"@ || s == "bigint"@ || s == "bigserial"@,
        metadata::type_of_name(s) == PgType::Float4 <==> s == "float4"@ || s == "real"@,
        metadata::type_of_name(s) == PgType::Float8 <==> s == "float8"@ || s == "double precision"@,
        metadata::type_of_name(s) == PgType::Numeric <==> s == "numeric"@ || s == "decimal"@,
        metadata::type_of_name(s) == PgType::Varchar <==> s == "varchar"@ || s == "character varying"@,
        metadata::type_of_name(s) == PgType::Bpchar <==> s == "char"@ || s == "character"@ || s == "bpchar"@,
        metadata::type_of_name(s) == PgType::Timestamp <==> s == "timestamp"@ || s == "timestamp without time zone"@,
        metadata::type_of_name(s) == PgType::Timestamptz <==> s == "timestamptz"@ || s
            == "timestamp with time zone"@,
        metadata::type_of_name(s) == PgType::Time <==> s == "time"@ || s == "time without time zone"@,
        metadata::type_of_name(s) == PgType::Bytea <==> s == "bytea"@,
        metadata::type_of_name(s) == PgType::Date <==> s == "date"@,
        metadata::type_of_name(s) == PgType::Uuid <==> s == "uuid"@,
        metadata::type_of_name(s) == PgType::Json <==> s == "json"@,
        metadata::type_of_name(s) == PgType::Jsonb <==> s == "jsonb"@,
        metadata::type_of_name(s) == PgType::Oid <==> s == "oid"@,
        metadata::type_of_name(s) == PgType::Name <==> s == "name"@,
{
    lemma_names();
}

/// The lengths of the names, and characters by which those of one length are told apart.
proof fn lemma_names()
    ensures
        "bool"@.len() == 4 && "bool"@[0] == 'b',
        "boolean"@.len() == 7 && "boolean"@[0] == 'b',
        "int2"@.len() == 4 && "int2"@[0] == 'i' && "int2"@[3] == '2',
        "smallint"@.len() == 8,
        "int4"@.len() == 4 && "int4"@[0] == 'i' && "int4"@[3] == '4',
        "integer"@.len() == 7 && "integer"@[0] == 'i',
        "int"@.len() == 3 && "int"@[0] == 'i',
        "serial"@.len() == 6 && "serial"@[0] == 's',
        "int8"@.len() == 4 && "int8"@[0] == 'i' && "int8"@[3] == '8',
        "bigint"@.len() == 6 && "bigint"@[0] == 'b' && "bigint"@[1] == 'i',
        "bigserial"@.len() == 9 && "bigserial"@[0] == 'b',
        "float4"@.len() == 6 && "float4"@[0] == 'f' && "float4"@[5] == '4',
        "real"@.len() == 4 && "real"@[0] == 'r',
        "float8"@.len() == 6 && "float8"@[0] == 'f' && "float8"@[5] == '8',
        "double precision"@.len() == 16,
        "numeric"@.len() == 7 && "numeric"@[0] == 'n',
        "decimal"@.len() == 7 && "decimal"@[0] == 'd',
        "text"@.len() == 4 && "text"@[0] == 't' && "text"@[1] == 'e',
        "varchar"@.len() == 7 && "varchar"@[0] == 'v',
        "character varying"@.len() == 17,
        "char"@.len() == 4 && "char"@[0] == 'c',
        "character"@.len() == 9 && "character"@[0] == 'c',
        "bpchar"@.len() == 6 && "bpchar"@[0] == 'b' && "bpchar"@[1] == 'p',
        "bytea"@.len() == 5 && "bytea"@[0] == 'b',
        "timestamp"@.len() == 9 && "timestamp"@[0] == 't',
        "timestamp without time zone"@.len() == 27,
        "timestamptz"@.len() == 11,
        "timestamp with time zone"@.len() == 24,
        "date"@.len() == 4 && "date"@[0] == 'd',
        "time"@.len() == 4 && "time"@[0] == 't' && "time"@[1] == 'i',
        "time without time zone"@.len() == 22,
        "uuid"@.len() == 4 && "uuid"@[0] == 'u',
        "json"@.len() == 4 && "json"@[0] == 'j',
        "jsonb"@.len() == 5 && "jsonb"@[0] == 'j',
        "oid"@.len() == 3 && "oid"@[0] == 'o',
        "name"@.len() == 4 && "name"@[0] == 'n',
{
    reveal_strlit("bool");
    reveal_strlit("boolean");
    reveal_strlit("int2");
    reveal_strlit("smallint");
    reveal_strlit("int4");
    reveal_strlit("integer");
    reveal_strlit("int");
    reveal_strlit("serial");
    reveal_strlit("int8");
    reveal_strlit("bigint");
    reveal_strlit("bigserial");
    reveal_strlit("float4");
    reveal_strlit("real");
    reveal_strlit("float8");
    reveal_strlit("double precision");
    reveal_strlit("numeric");
    reveal_strlit("decimal");
    reveal_strlit("text");
    reveal_strlit("varchar");
    reveal_strlit("character varying");
    reveal_strlit("char");
    reveal_strlit("character");
    reveal_strlit("bpchar");
    reveal_strlit("bytea");
    reveal_strlit("timestamp");
    reveal_strlit("timestamp without time zone");
    reveal_strlit("timestamptz");
    reveal_strlit("timestamp with time zone");
    reveal_strlit("date");
    reveal_strlit("time");
    reveal_strlit("time without time zone");
    reveal_strlit("uuid");
    reveal_strlit("json");
    reveal_strlit("jsonb");
    reveal_strlit("oid");
    reveal_strlit("name");
}

/// A UUID is written with hyphens after the eighth, twelfth, sixteenth and twentieth of its
/// thirty-two digits, and is read back from these.
pub proof fn a_uuid_reads_back(value: u128)
    ensures
        ({
            let s = types::uuid_text(value);
            &&& s.len() == 36
            &&& s[8] == '-' && s[13] == '-' && s[18] == '-' && s[23] == '-'
            &&& text_laws::read_hex(
                s.subrange(0, 8) + s.subrange(9, 13) + s.subrange(14, 18) + s.subrange(19, 23) + s.subrange(24, 36),
            ) == value
        }),
{
    reveal_with_fuel(text_laws::hex_numbers, 33);
    text_laws::hex_reads_back(value as nat, 32);
    let s = types::uuid_text(value);
    let digits = types::hex(value as nat, 32);
    assert(s.subrange(0, 8) + s.subrange(9, 13) + s.subrange(14, 18) + s.subrange(19, 23) + s.subrange(24, 36)
        =~= digits);
}

} // verus!
