//! The values, columns and reports that the library works on.

use vstd::prelude::*;

use crate::instant::{CalendarDate, TimeOfDay, Timestamp};
use crate::outside;
use crate::text;

verus! {

/// The column types that are told apart. A column of any other type is read as text.
#[derive(Clone, Copy, Debug, PartialEq, Eq, Structural)]
pub enum PgType {
    Bool,
    Int2,
    Int4,
    Int8,
    Float4,
    Float8,
    Numeric,
    Text,
    Varchar,
    Bpchar,
    Bytea,
    Timestamp,
    Timestamptz,
    Date,
    Time,
    Uuid,
    Json,
    Jsonb,
    Oid,
    Name,
}

/// The name of a column type.
pub open spec fn pg_type_text(pg_type: PgType) -> Seq<char> {
    match pg_type {
        PgType::Bool => "bool"@,
        PgType::Int2 => "int2"@,
        PgType::Int4 => "int4"@,
        PgType::Int8 => "int8"@,
        PgType::Float4 => "float4"@,
        PgType::Float8 => "float8"@,
        PgType::Numeric => "numeric"@,
        PgType::Text => "text"@,
        PgType::Varchar => "varchar"@,
        PgType::Bpchar => "bpchar"@,
        PgType::Bytea => "bytea"@,
        PgType::Timestamp => "timestamp"@,
        PgType::Timestamptz => "timestamptz"@,
        PgType::Date => "date"@,
        PgType::Time => "time"@,
        PgType::Uuid => "uuid"@,
        PgType::Json => "json"@,
        PgType::Jsonb => "jsonb"@,
        PgType::Oid => "oid"@,
        PgType::Name => "name"@,
    }
}

/// The number by which PostgreSQL knows a column type.
pub open spec fn type_oid(pg_type: PgType) -> int {
    match pg_type {
        PgType::Bool => 16,
        PgType::Int2 => 21,
        PgType::Int4 => 23,
        PgType::Int8 => 20,
        PgType::Float4 => 700,
        PgType::Float8 => 701,
        PgType::Numeric => 1700,
        PgType::Text => 25,
        PgType::Varchar => 1043,
        PgType::Bpchar => 1042,
        PgType::Bytea => 17,
        PgType::Timestamp => 1114,
        PgType::Timestamptz => 1184,
        PgType::Date => 1082,
        PgType::Time => 1083,
        PgType::Uuid => 2950,
        PgType::Json => 114,
        PgType::Jsonb => 3802,
        PgType::Oid => 26,
        PgType::Name => 19,
    }
}

impl PgType {
    /// The number by which PostgreSQL knows the type.
    pub fn oid(self) -> (r: u32)
        ensures
            r == type_oid(self),
    {
        match self {
            PgType::Bool => 16,
            PgType::Int2 => 21,
            PgType::Int4 => 23,
            PgType::Int8 => 20,
            PgType::Float4 => 700,
            PgType::Float8 => 701,
            PgType::Numeric => 1700,
            PgType::Text => 25,
            PgType::Varchar => 1043,
            PgType::Bpchar => 1042,
            PgType::Bytea => 17,
            PgType::Timestamp => 1114,
            PgType::Timestamptz => 1184,
            PgType::Date => 1082,
            PgType::Time => 1083,
            PgType::Uuid => 2950,
            PgType::Json => 114,
            PgType::Jsonb => 3802,
            PgType::Oid => 26,
            PgType::Name => 19,
        }
    }
}

/// A digit of a hexadecimal number.
pub open spec fn hex_char(d: nat) -> char {
    if d < 10 {
        (48 + d) as char
    } else {
        (87 + d) as char
    }
}

/// A number in lowercase hexadecimal, with as many digits as given.
pub open spec fn hex(n: nat, width: nat) -> Seq<char>
    decreases width,
{
    if width == 0 {
        Seq::empty()
    } else {
        hex(n / 16, (width - 1) as nat).push(hex_char(n % 16))
    }
}

/// The text of a UUID.
pub open spec fn uuid_text(value: u128) -> Seq<char> {
    let digits = hex(value as nat, 32);
    digits.subrange(0, 8) + seq!['-'] + digits.subrange(8, 12) + seq!['-'] + digits.subrange(12, 16)
        + seq!['-'] + digits.subrange(16, 20) + seq!['-'] + digits.subrange(20, 32)
}

/// A single precision number: its IEEE bits, and the texts that it is written as.
#[derive(Clone, Debug)]
pub struct Real32 {
    pub bits: u32,
    /// The `Display` form.
    pub display: String,
    /// The `Debug` form.
    pub debug: String,
}

/// A double precision number: its IEEE bits, and the texts that it is written as.
#[derive(Clone, Debug)]
pub struct Real64 {
    pub bits: u64,
    /// The `Display` form.
    pub display: String,
    /// The `Debug` form.
    pub debug: String,
}

/// What a floating point number is, besides its digits.
#[derive(Clone, Copy, Debug, PartialEq, Eq, Structural)]
pub enum RealClass {
    NotANumber,
    PositiveInfinity,
    NegativeInfinity,
    Zero,
    Finite,
}

/// The class of a single precision number: an exponent of all ones is an infinity, or no number
/// where a fraction stands beside it.
pub open spec fn class32(bits: u32) -> RealClass {
    let magnitude = bits % 0x8000_0000;
    if magnitude > 0x7f80_0000 {
        RealClass::NotANumber
    } else if magnitude == 0x7f80_0000 {
        if bits < 0x8000_0000 {
            RealClass::PositiveInfinity
        } else {
            RealClass::NegativeInfinity
        }
    } else if magnitude == 0 {
        RealClass::Zero
    } else {
        RealClass::Finite
    }
}

/// The class of a double precision number.
pub open spec fn class64(bits: u64) -> RealClass {
    let magnitude = bits % 0x8000_0000_0000_0000;
    if magnitude > 0x7ff0_0000_0000_0000 {
        RealClass::NotANumber
    } else if magnitude == 0x7ff0_0000_0000_0000 {
        if bits < 0x8000_0000_0000_0000 {
            RealClass::PositiveInfinity
        } else {
            RealClass::NegativeInfinity
        }
    } else if magnitude == 0 {
        RealClass::Zero
    } else {
        RealClass::Finite
    }
}

/// Whether two floating point numbers are equal: what is no number equals nothing, and the two
/// zeros are equal.
pub open spec fn reals_equal(a: RealClass, b: RealClass, same_bits: bool) -> bool {
    &&& a != RealClass::NotANumber
    &&& same_bits || (a == RealClass::Zero && b == RealClass::Zero)
}

impl Real32 {
    /// The class of the number.
    pub fn class(&self) -> (r: RealClass)
        ensures
            r == class32(self.bits),
    {
        let magnitude: u32 = self.bits % 0x8000_0000;
        if magnitude > 0x7f80_0000 {
            RealClass::NotANumber
        } else if magnitude == 0x7f80_0000 {
            if self.bits < 0x8000_0000 {
                RealClass::PositiveInfinity
            } else {
                RealClass::NegativeInfinity
            }
        } else if magnitude == 0 {
            RealClass::Zero
        } else {
            RealClass::Finite
        }
    }
}

impl Real64 {
    /// The class of the number.
    pub fn class(&self) -> (r: RealClass)
        ensures
            r == class64(self.bits),
    {
        let magnitude: u64 = self.bits % 0x8000_0000_0000_0000;
        if magnitude > 0x7ff0_0000_0000_0000 {
            RealClass::NotANumber
        } else if magnitude == 0x7ff0_0000_0000_0000 {
            if self.bits < 0x8000_0000_0000_0000 {
                RealClass::PositiveInfinity
            } else {
                RealClass::NegativeInfinity
            }
        } else if magnitude == 0 {
            RealClass::Zero
        } else {
            RealClass::Finite
        }
    }
}

/// A JSON value, by a text that holds it.
#[derive(Debug)]
pub struct JsonText {
    text: String,
}

impl View for JsonText {
    type V = Seq<char>;

    closed spec fn view(&self) -> Seq<char> {
        self.text@
    }
}

impl JsonText {
    #[verifier::type_invariant]
    spec fn holds_json(self) -> bool {
        outside::json_valid(self.text@)
    }

    /// The value that a text holds, where it is JSON.
    pub fn new(text: String) -> (r: Option<JsonText>)
        ensures
            r is Some <==> outside::json_valid(text@),
            r matches Some(j) ==> j@ == text@,
    {
        if outside::parses_as_json(text.as_str()) {
            Some(JsonText { text })
        } else {
            None
        }
    }

    /// The value written without white space.
    pub fn compact(&self) -> (r: String)
        ensures
            r@ == outside::json_compact(self@),
    {
        proof { use_type_invariant(self); }
        outside::compact_json(self.text.as_str())
    }

    /// The `Debug` form of the value.
    pub fn debug(&self) -> (r: String)
        ensures
            r@ == outside::json_debug(self@),
    {
        proof { use_type_invariant(self); }
        outside::debug_json(self.text.as_str())
    }

    /// Whether two values are equal.
    pub fn same(&self, other: &JsonText) -> (r: bool)
        ensures
            r == outside::json_same(self@, other@),
            self@ == other@ ==> r,
    {
        proof {
            use_type_invariant(self);
            use_type_invariant(other);
        }
        outside::same_json(self.text.as_str(), other.text.as_str())
    }
}

impl Clone for JsonText {
    fn clone(&self) -> (r: JsonText)
        ensures
            r@ == self@,
    {
        proof { use_type_invariant(self); }
        JsonText { text: self.text.clone() }
    }
}

/// A value of a PostgreSQL row.
#[derive(Clone, Debug)]
pub enum RowValue {
    Null,
    Bool(bool),
    I16(i16),
    I32(i32),
    I64(i64),
    F32(Real32),
    F64(Real64),
    Text(String),
    Bytes(Vec<u8>),
    Timestamp(Timestamp),
    TimestampTz(Timestamp),
    Date(CalendarDate),
    Time(TimeOfDay),
    Uuid(u128),
    Json(JsonText),
    /// NUMERIC/DECIMAL stored as string to avoid precision loss.
    Numeric(String),
}

/// A row is a vector of column values in ordinal order.
pub type Row = Vec<RowValue>;

/// Whether two values are of the same kind and equal.
pub open spec fn values_equal(a: RowValue, b: RowValue) -> bool {
    match (a, b) {
        (RowValue::Null, RowValue::Null) => true,
        (RowValue::Bool(x), RowValue::Bool(y)) => x == y,
        (RowValue::I16(x), RowValue::I16(y)) => x == y,
        (RowValue::I32(x), RowValue::I32(y)) => x == y,
        (RowValue::I64(x), RowValue::I64(y)) => x == y,
        (RowValue::F32(x), RowValue::F32(y)) => reals_equal(
            class32(x.bits),
            class32(y.bits),
            x.bits == y.bits,
        ),
        (RowValue::F64(x), RowValue::F64(y)) => reals_equal(
            class64(x.bits),
            class64(y.bits),
            x.bits == y.bits,
        ),
        (RowValue::Text(x), RowValue::Text(y)) => x@ == y@,
        (RowValue::Bytes(x), RowValue::Bytes(y)) => x@ == y@,
        (RowValue::Timestamp(x), RowValue::Timestamp(y)) => x == y,
        (RowValue::TimestampTz(x), RowValue::TimestampTz(y)) => x == y,
        (RowValue::Date(x), RowValue::Date(y)) => x == y,
        (RowValue::Time(x), RowValue::Time(y)) => x == y,
        (RowValue::Uuid(x), RowValue::Uuid(y)) => x == y,
        (RowValue::Json(x), RowValue::Json(y)) => outside::json_same(x@, y@),
        (RowValue::Numeric(x), RowValue::Numeric(y)) => x@ == y@,
        _ => false,
    }
}

/// Whether two vectors of bytes hold the same bytes.
fn same_bytes(a: &Vec<u8>, b: &Vec<u8>) -> (r: bool)
    ensures
        r == (a@ == b@),
{
    if a.len() != b.len() {
        return false;
    }
    for i in 0..a.len()
        invariant
            a.len() == b.len(),
            a@.take(i as int) == b@.take(i as int),
    {
        if a[i] != b[i] {
            return false;
        }
        assert(a@.take(i + 1) == a@.take(i as int).push(a@[i as int]));
        assert(b@.take(i + 1) == b@.take(i as int).push(b@[i as int]));
    }
    assert(a@.take(a@.len() as int) == a@);
    assert(b@.take(b@.len() as int) == b@);
    true
}

impl RowValue {
    /// Whether two values are of the same kind and equal.
    pub fn same(&self, other: &RowValue) -> (r: bool)
        ensures
            r == values_equal(*self, *other),
    {
        match (self, other) {
            (RowValue::Null, RowValue::Null) => true,
            (RowValue::Bool(x), RowValue::Bool(y)) => *x == *y,
            (RowValue::I16(x), RowValue::I16(y)) => *x == *y,
            (RowValue::I32(x), RowValue::I32(y)) => *x == *y,
            (RowValue::I64(x), RowValue::I64(y)) => *x == *y,
            (RowValue::F32(x), RowValue::F32(y)) => {
                let class = x.class();
                class != RealClass::NotANumber && (x.bits == y.bits || (class == RealClass::Zero
                    && y.class() == RealClass::Zero))
            },
            (RowValue::F64(x), RowValue::F64(y)) => {
                let class = x.class();
                class != RealClass::NotANumber && (x.bits == y.bits || (class == RealClass::Zero
                    && y.class() == RealClass::Zero))
            },
            (RowValue::Text(x), RowValue::Text(y)) => *x == *y,
            (RowValue::Bytes(x), RowValue::Bytes(y)) => same_bytes(x, y),
            (RowValue::Timestamp(x), RowValue::Timestamp(y)) => *x == *y,
            (RowValue::TimestampTz(x), RowValue::TimestampTz(y)) => *x == *y,
            (RowValue::Date(x), RowValue::Date(y)) => *x == *y,
            (RowValue::Time(x), RowValue::Time(y)) => *x == *y,
            (RowValue::Uuid(x), RowValue::Uuid(y)) => *x == *y,
            (RowValue::Json(x), RowValue::Json(y)) => x.same(y),
            (RowValue::Numeric(x), RowValue::Numeric(y)) => *x == *y,
            _ => false,
        }
    }

    /// Whether the value is the SQL null.
    pub fn is_null(&self) -> (r: bool)
        ensures
            r == (*self is Null),
    {
        matches!(self, RowValue::Null)
    }
}

/// As what a column of a fetched row is to be read.
#[derive(Clone, Copy, Debug, PartialEq, Eq, Structural)]
pub enum FieldKind {
    Bool,
    I16,
    I32,
    I64,
    F32,
    F64,
    Text,
    Bytes,
    Timestamp,
    TimestampTz,
    Date,
    Time,
    Uuid,
    Json,
}

/// What a column of a fetched row was read as.
#[derive(Clone, Debug)]
pub enum Field {
    /// A null.
    Null,
    /// A value that could not be read as the kind that was asked for.
    Unreadable,
    Bool(bool),
    I16(i16),
    I32(i32),
    I64(i64),
    F32(Real32),
    F64(Real64),
    Text(String),
    Bytes(Vec<u8>),
    Timestamp(Timestamp),
    TimestampTz(Timestamp),
    Date(CalendarDate),
    Time(TimeOfDay),
    Uuid(u128),
    Json(JsonText),
}

/// The kind that a column of the given type is read as.
pub open spec fn kind_of_type(pg_type: PgType) -> FieldKind {
    match pg_type {
        PgType::Bool => FieldKind::Bool,
        PgType::Int2 => FieldKind::I16,
        PgType::Int4 => FieldKind::I32,
        PgType::Oid => FieldKind::I32,
        PgType::Int8 => FieldKind::I64,
        PgType::Float4 => FieldKind::F32,
        PgType::Float8 => FieldKind::F64,
        PgType::Bytea => FieldKind::Bytes,
        PgType::Timestamp => FieldKind::Timestamp,
        PgType::Timestamptz => FieldKind::TimestampTz,
        PgType::Date => FieldKind::Date,
        PgType::Time => FieldKind::Time,
        PgType::Uuid => FieldKind::Uuid,
        PgType::Json => FieldKind::Json,
        PgType::Jsonb => FieldKind::Json,
        PgType::Text => FieldKind::Text,
        PgType::Varchar => FieldKind::Text,
        PgType::Bpchar => FieldKind::Text,
        PgType::Name => FieldKind::Text,
        PgType::Numeric => FieldKind::Text,
    }
}

/// The kind that a column of the given type is read as.
pub fn field_kind(pg_type: PgType) -> (r: FieldKind)
    ensures
        r == kind_of_type(pg_type),
{
    match pg_type {
        PgType::Bool => FieldKind::Bool,
        PgType::Int2 => FieldKind::I16,
        PgType::Int4 | PgType::Oid => FieldKind::I32,
        PgType::Int8 => FieldKind::I64,
        PgType::Float4 => FieldKind::F32,
        PgType::Float8 => FieldKind::F64,
        PgType::Bytea => FieldKind::Bytes,
        PgType::Timestamp => FieldKind::Timestamp,
        PgType::Timestamptz => FieldKind::TimestampTz,
        PgType::Date => FieldKind::Date,
        PgType::Time => FieldKind::Time,
        PgType::Uuid => FieldKind::Uuid,
        PgType::Json | PgType::Jsonb => FieldKind::Json,
        PgType::Text | PgType::Varchar | PgType::Bpchar | PgType::Name | PgType::Numeric => {
            FieldKind::Text
        },
    }
}

/// The value of a column of the given type: what was read, where it is of the kind that the
/// type is read as, and null otherwise. The text of a number of arbitrary precision, as which it
/// is fetched, stays apart from other text.
pub open spec fn value_of_field(field: Field, pg_type: PgType) -> RowValue {
    match (kind_of_type(pg_type), field) {
        (FieldKind::Bool, Field::Bool(v)) => RowValue::Bool(v),
        (FieldKind::I16, Field::I16(v)) => RowValue::I16(v),
        (FieldKind::I32, Field::I32(v)) => RowValue::I32(v),
        (FieldKind::I64, Field::I64(v)) => RowValue::I64(v),
        (FieldKind::F32, Field::F32(v)) => RowValue::F32(v),
        (FieldKind::F64, Field::F64(v)) => RowValue::F64(v),
        (FieldKind::Text, Field::Text(v)) => if pg_type is Numeric {
            RowValue::Numeric(v)
        } else {
            RowValue::Text(v)
        },
        (FieldKind::Bytes, Field::Bytes(v)) => RowValue::Bytes(v),
        (FieldKind::Timestamp, Field::Timestamp(v)) => RowValue::Timestamp(v),
        (FieldKind::TimestampTz, Field::TimestampTz(v)) => RowValue::TimestampTz(v),
        (FieldKind::Date, Field::Date(v)) => RowValue::Date(v),
        (FieldKind::Time, Field::Time(v)) => RowValue::Time(v),
        (FieldKind::Uuid, Field::Uuid(v)) => RowValue::Uuid(v),
        (FieldKind::Json, Field::Json(v)) => RowValue::Json(v),
        _ => RowValue::Null,
    }
}

/// The value of a column, from what was read of it and the column's PostgreSQL type.
pub fn extract_row_value(field: Field, pg_type: PgType) -> (r: RowValue)
    ensures
        r == value_of_field(field, pg_type),
{
    match (field_kind(pg_type), field) {
        (FieldKind::Bool, Field::Bool(v)) => RowValue::Bool(v),
        (FieldKind::I16, Field::I16(v)) => RowValue::I16(v),
        (FieldKind::I32, Field::I32(v)) => RowValue::I32(v),
        (FieldKind::I64, Field::I64(v)) => RowValue::I64(v),
        (FieldKind::F32, Field::F32(v)) => RowValue::F32(v),
        (FieldKind::F64, Field::F64(v)) => RowValue::F64(v),
        (FieldKind::Text, Field::Text(v)) => {
            if pg_type == PgType::Numeric {
                RowValue::Numeric(v)
            } else {
                RowValue::Text(v)
            }
        },
        (FieldKind::Bytes, Field::Bytes(v)) => RowValue::Bytes(v),
        (FieldKind::Timestamp, Field::Timestamp(v)) => RowValue::Timestamp(v),
        (FieldKind::TimestampTz, Field::TimestampTz(v)) => RowValue::TimestampTz(v),
        (FieldKind::Date, Field::Date(v)) => RowValue::Date(v),
        (FieldKind::Time, Field::Time(v)) => RowValue::Time(v),
        (FieldKind::Uuid, Field::Uuid(v)) => RowValue::Uuid(v),
        (FieldKind::Json, Field::Json(v)) => RowValue::Json(v),
        _ => RowValue::Null,
    }
}

/// The values of a row: that of each column, in order.
pub open spec fn values_of_fields(fields: Seq<Field>, columns: Seq<ColumnInfo>) -> Seq<RowValue> {
    Seq::new(columns.len(), |i: int| value_of_field(fields[i], columns[i].pg_type))
}

/// An entire row, from what was read of each of its columns.
pub fn extract_row(fields: Vec<Field>, columns: &[ColumnInfo]) -> (r: Row)
    requires
        fields@.len() == columns@.len(),
    ensures
        r@ == values_of_fields(fields@, columns@),
{
    let ghost all = fields@;
    let mut row: Row = Vec::new();
    let mut i: usize = 0;
    for field in it: fields
        invariant
            it.seq() == all,
            all.len() == columns@.len(),
            i == it.index(),
            row@ == values_of_fields(all, columns@).take(i as int),
    {
        row.push(extract_row_value(field, columns[i].pg_type));
        i = i + 1;
        assert(row@ =~= values_of_fields(all, columns@).take(i as int));
    }
    row
}

/// Metadata for a single column.
#[derive(Clone, Debug)]
pub struct ColumnInfo {
    pub name: String,
    pub pg_type: PgType,
    pub is_pk: bool,
    pub is_identity: bool,
    /// Ordinal position (0-based) in the table's column list.
    pub ordinal: usize,
}

impl ColumnInfo {
    /// The same column again.
    pub fn duplicate(&self) -> (r: ColumnInfo)
        ensures
            r == *self,
    {
        ColumnInfo {
            name: self.name.clone(),
            pg_type: self.pg_type,
            is_pk: self.is_pk,
            is_identity: self.is_identity,
            ordinal: self.ordinal,
        }
    }
}

/// Whether a column has a name, ASCII letters compared without case.
pub open spec fn column_is(column: ColumnInfo, name: Seq<char>) -> bool {
    text::ascii_lower(column.name@) == text::ascii_lower(name)
}

/// The place of the first column with a name, ASCII letters compared without case; the number
/// of columns where there is none.
pub open spec fn column_index(columns: Seq<ColumnInfo>, name: Seq<char>) -> int
    decreases columns.len(),
{
    if columns.len() == 0 || column_is(columns[0], name) {
        0
    } else {
        1 + column_index(columns.drop_first(), name)
    }
}

/// Whether some column has a name, ASCII letters compared without case.
pub open spec fn has_column(columns: Seq<ColumnInfo>, name: Seq<char>) -> bool {
    column_index(columns, name) < columns.len()
}

pub proof fn lemma_column_index(columns: Seq<ColumnInfo>, name: Seq<char>)
    ensures
        0 <= column_index(columns, name) <= columns.len(),
        forall|i: int| 0 <= i < column_index(columns, name) ==> !column_is(#[trigger] columns[i], name),
        has_column(columns, name) ==> column_is(columns[column_index(columns, name)], name),
        has_column(columns, name) <==> exists|i: int| 0 <= i < columns.len() && column_is(#[trigger] columns[i], name),
    decreases columns.len(),
{
    if columns.len() > 0 && !column_is(columns[0], name) {
        lemma_column_index(columns.drop_first(), name);
        assert forall|i: int| 0 <= i < column_index(columns, name) implies !column_is(#[trigger] columns[i], name) by {
            if i > 0 {
                assert(columns.drop_first()[i - 1] == columns[i]);
            }
        }
    }
}

/// The place of the first column with a name, ASCII letters compared without case.
pub fn find_column(columns: &[ColumnInfo], name: &str) -> (r: Option<usize>)
    ensures
        match r {
            Some(i) => i == column_index(columns@, name@) && i < columns@.len(),
            None => column_index(columns@, name@) == columns@.len(),
        },
{
    proof { lemma_column_index(columns@, name@); }
    for i in 0..columns.len()
        invariant
            0 <= column_index(columns@, name@) <= columns@.len(),
            forall|j: int| 0 <= j < column_index(columns@, name@) ==> !column_is(#[trigger] columns@[j], name@),
            has_column(columns@, name@) ==> column_is(columns@[column_index(columns@, name@)], name@),
            forall|j: int| 0 <= j < i ==> !column_is(#[trigger] columns@[j], name@),
    {
        if text::eq_ignore_ascii_case(columns[i].name.as_str(), name) {
            assert(column_is(columns@[i as int], name@));
            return Some(i);
        }
        assert(!column_is(columns@[i as int], name@));
    }
    None
}

/// A number of days, which need not be whole: its IEEE bits, and its text with one decimal.
#[derive(Clone, Debug)]
pub struct DayCount {
    pub bits: u64,
    pub one_decimal: String,
}

/// Chunk strategy determined by table size and available timestamp column.
#[derive(Clone, Debug)]
pub enum ChunkStrategy {
    /// Small table (<100K rows): chunk by ID.
    IdChunkSmall,
    /// Medium table (100K-1M rows): chunk by ID.
    IdChunkMedium,
    /// Large table (>1M rows) with timestamp column: MD5 hash comparison on time-based chunks.
    Md5TimestampChunk {
        timestamp_column: String,
        min_ts: Timestamp,
        max_ts: Timestamp,
        chunk_days: DayCount,
    },
    /// Large table (>1M rows) without timestamp, but excluded from strict comparison.
    IdChunkLargeExcluded,
}

impl Real64 {
    /// The same number again.
    pub fn duplicate(&self) -> (r: Real64)
        ensures
            r == *self,
    {
        Real64 { bits: self.bits, display: self.display.clone(), debug: self.debug.clone() }
    }
}

impl DayCount {
    /// The same number again.
    pub fn duplicate(&self) -> (r: DayCount)
        ensures
            r == *self,
    {
        DayCount { bits: self.bits, one_decimal: self.one_decimal.clone() }
    }
}

impl ChunkStrategy {
    /// The same strategy again.
    pub fn duplicate(&self) -> (r: ChunkStrategy)
        ensures
            r == *self,
    {
        match self {
            ChunkStrategy::IdChunkSmall => ChunkStrategy::IdChunkSmall,
            ChunkStrategy::IdChunkMedium => ChunkStrategy::IdChunkMedium,
            ChunkStrategy::Md5TimestampChunk { timestamp_column, min_ts, max_ts, chunk_days } => {
                ChunkStrategy::Md5TimestampChunk {
                    timestamp_column: timestamp_column.clone(),
                    min_ts: *min_ts,
                    max_ts: *max_ts,
                    chunk_days: chunk_days.duplicate(),
                }
            },
            ChunkStrategy::IdChunkLargeExcluded => ChunkStrategy::IdChunkLargeExcluded,
        }
    }
}

/// The text by which a strategy is reported.
pub open spec fn strategy_text(strategy: ChunkStrategy) -> Seq<char> {
    match strategy {
        ChunkStrategy::IdChunkSmall => "IdChunkSmall"@,
        ChunkStrategy::IdChunkMedium => "IdChunkMedium"@,
        ChunkStrategy::Md5TimestampChunk { timestamp_column, chunk_days, .. } => {
            "Md5TimestampChunk(col="@ + timestamp_column@ + ", chunk_days="@ + chunk_days.one_decimal@
                + ")"@
        },
        ChunkStrategy::IdChunkLargeExcluded => "IdChunkLargeExcluded"@,
    }
}

impl ChunkStrategy {
    /// The text by which the strategy is reported.
    pub fn to_text(&self) -> (r: String)
        ensures
            r@ == strategy_text(*self),
    {
        match self {
            ChunkStrategy::IdChunkSmall => "IdChunkSmall".to_owned(),
            ChunkStrategy::IdChunkMedium => "IdChunkMedium".to_owned(),
            ChunkStrategy::Md5TimestampChunk { timestamp_column, chunk_days, .. } => {
                let mut out = "Md5TimestampChunk(col=".to_owned();
                out.append(timestamp_column.as_str());
                out.append(", chunk_days=");
                out.append(chunk_days.one_decimal.as_str());
                out.append(")");
                out
            },
            ChunkStrategy::IdChunkLargeExcluded => "IdChunkLargeExcluded".to_owned(),
        }
    }
}

/// Analysis result for a single table, including the chosen chunk strategy and ETC estimate.
#[derive(Clone, Debug)]
pub struct TableAnalysis {
    pub ref_table: String,
    pub target_table: String,
    pub row_count: i64,
    pub timestamp_column: Option<String>,
    pub strategy: ChunkStrategy,
    pub estimated_seconds: Real64,
}

impl TableAnalysis {
    /// The same analysis again.
    pub fn duplicate(&self) -> (r: TableAnalysis)
        ensures
            r == *self,
    {
        TableAnalysis {
            ref_table: self.ref_table.clone(),
            target_table: self.target_table.clone(),
            row_count: self.row_count,
            timestamp_column: match &self.timestamp_column {
                Some(c) => Some(c.clone()),
                None => None,
            },
            strategy: self.strategy.duplicate(),
            estimated_seconds: self.estimated_seconds.duplicate(),
        }
    }
}

/// Result of comparing schemas between reference and target for a single table.
#[derive(Clone, Debug)]
pub enum SchemaComparisonResult {
    /// Schemas match exactly (only comparing shared columns).
    Match,
    /// Target has all reference columns plus extra columns.
    TargetSuperset { extra_columns: Vec<String> },
    /// Table is in the exclusion list.
    Excluded,
    /// Schemas differ in incompatible ways.
    Mismatch { message: String },
}

/// Result of attempting to set up a table pair for comparison.
#[derive(Clone, Copy, Debug, PartialEq, Eq, Structural)]
pub enum TableDiffStatus {
    Okay,
    ColumnMismatch,
    ReferenceNotFound,
    TargetNotFound,
    NoPrimaryKey,
}

/// Statistics for the INSERT/UPDATE phase.
#[derive(Clone, Copy, Debug, PartialEq, Eq, Structural, Default)]
pub struct DiffStats {
    pub inserts: u64,
    pub updates: u64,
}

/// Statistics for a single table's diff.
#[derive(Clone, Debug, Default)]
pub struct TableDiffReport {
    pub table_name: String,
    pub inserts: u64,
    pub updates: u64,
    pub deletes: u64,
    pub insert_file: Option<String>,
    pub update_file: Option<String>,
    pub delete_file: Option<String>,
}

/// Overall diff report.
#[derive(Clone, Debug, Default)]
pub struct DiffReport {
    pub tables: Vec<TableDiffReport>,
    pub warnings: Vec<String>,
    pub master_script: Option<String>,
}

} // verus!
