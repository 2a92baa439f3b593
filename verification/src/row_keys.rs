//! What the texts of row keys tell apart.

use vstd::prelude::*;

use crate::instant;
use crate::instant_laws;
use crate::table_diff;
use crate::text;
use crate::types;
use crate::types::RowValue;

verus! {

/// Whether the values of two keys are alike: in each place both are null, or both have the same
/// text.
pub open spec fn alike(a: Seq<RowValue>, b: Seq<RowValue>) -> bool {
    &&& a.len() == b.len()
    &&& forall|i: int| 0 <= i < a.len() ==> alike_values(#[trigger] a[i], b[i])
}

/// Whether two values are both null, or both have the same text.
pub open spec fn alike_values(a: RowValue, b: RowValue) -> bool {
    &&& a is Null <==> b is Null
    &&& table_diff::raw_text(a) == table_diff::raw_text(b)
}

/// The place of the first bar that no backslash stands before; the length where there is none.
spec fn part_end(s: Seq<char>) -> int
    decreases s.len(),
{
    if s.len() == 0 || s[0] == '|' {
        0
    } else if s[0] == '\\' && s.len() > 1 {
        2 + part_end(s.skip(2))
    } else {
        1 + part_end(s.drop_first())
    }
}

/// Whether a text can follow a part of a key.
spec fn ends_part(s: Seq<char>) -> bool {
    s.len() == 0 || s[0] == '|'
}

proof fn lemma_escaped_part(s: Seq<char>, rest: Seq<char>)
    requires
        ends_part(rest),
    ensures
        part_end(table_diff::escaped(s) + rest) == table_diff::escaped(s).len(),
    decreases s.len(),
{
    let e = table_diff::escaped(s);
    if s.len() == 0 {
        assert(e + rest =~= rest);
    } else {
        let less = s.drop_first();
        lemma_escaped_part(less, rest);
        if s[0] == '\\' || s[0] == '|' {
            assert((e + rest).skip(2) =~= table_diff::escaped(less) + rest);
            assert((e + rest)[0] == '\\');
        } else {
            assert((e + rest).drop_first() =~= table_diff::escaped(less) + rest);
            assert((e + rest)[0] == s[0]);
        }
    }
}

proof fn lemma_key_part(value: RowValue, rest: Seq<char>)
    requires
        ends_part(rest),
    ensures
        part_end(table_diff::key_text(value) + rest) == table_diff::key_text(value).len(),
{
    reveal_strlit("NULL");
    reveal_strlit("\\NULL");
    let null = "NULL"@;
    let marked = "\\NULL"@;
    if value is Null {
        lemma_escaped_part(null, rest);
        lemma_plain(null);
    } else if table_diff::raw_text(value) == null {
        let tail = seq!['U', 'L', 'L'];
        lemma_escaped_part(tail, rest);
        lemma_plain(tail);
        assert((marked + rest).skip(2) =~= tail + rest);
        assert((marked + rest)[0] == '\\');
    } else {
        lemma_escaped_part(table_diff::raw_text(value), rest);
    }
}

/// A text without backslashes and bars is not changed by escaping.
proof fn lemma_plain(s: Seq<char>)
    requires
        forall|i: int| 0 <= i < s.len() ==> (#[trigger] s[i]) != '\\' && s[i] != '|',
    ensures
        table_diff::escaped(s) == s,
    decreases s.len(),
{
    if s.len() > 0 {
        assert(s[0] != '\\' && s[0] != '|');
        let less = s.drop_first();
        assert forall|i: int| 0 <= i < less.len() implies (#[trigger] less[i]) != '\\' && less[i] != '|' by {
            assert(less[i] == s[i + 1]);
        }
        lemma_plain(less);
        assert(table_diff::escaped(s) =~= s);
    } else {
        assert(table_diff::escaped(s) =~= s);
    }
}

proof fn lemma_escaped_injective(a: Seq<char>, b: Seq<char>)
    requires
        table_diff::escaped(a) == table_diff::escaped(b),
    ensures
        a == b,
    decreases a.len(),
{
    let e = table_diff::escaped(a);
    let f = table_diff::escaped(b);
    if a.len() == 0 || b.len() == 0 {
        assert(a.len() > 0 ==> e.len() > 0);
        assert(b.len() > 0 ==> f.len() > 0);
        assert(a =~= b);
    } else {
        let less_a = a.drop_first();
        let less_b = b.drop_first();
        let marked_a = a[0] == '\\' || a[0] == '|';
        let marked_b = b[0] == '\\' || b[0] == '|';
        assert(e[0] == if marked_a { '\\' } else { a[0] });
        assert(f[0] == if marked_b { '\\' } else { b[0] });
        assert(marked_a == marked_b);
        if marked_a {
            assert(e[1] == a[0] && f[1] == b[0]);
            assert(e.skip(2) =~= table_diff::escaped(less_a));
            assert(f.skip(2) =~= table_diff::escaped(less_b));
        } else {
            assert(e.drop_first() =~= table_diff::escaped(less_a));
            assert(f.drop_first() =~= table_diff::escaped(less_b));
        }
        lemma_escaped_injective(less_a, less_b);
        assert(a =~= seq![a[0]] + less_a);
        assert(b =~= seq![b[0]] + less_b);
    }
}

proof fn lemma_key_text_injective(a: RowValue, b: RowValue)
    requires
        table_diff::key_text(a) == table_diff::key_text(b),
    ensures
        alike_values(a, b),
{
    reveal_strlit("NULL");
    reveal_strlit("\\NULL");
    lemma_marked_null(table_diff::raw_text(a));
    lemma_marked_null(table_diff::raw_text(b));
    let null = "NULL"@;
    lemma_plain(null);
    let raw_a = table_diff::raw_text(a);
    let raw_b = table_diff::raw_text(b);
    assert("\\NULL"@.len() != null.len());
    if a is Null && !(b is Null) && raw_b != null {
        lemma_escaped_injective(null, raw_b);
    }
    if b is Null && !(a is Null) && raw_a != null {
        lemma_escaped_injective(null, raw_a);
    }
    if !(a is Null) && !(b is Null) && raw_a != null && raw_b != null {
        lemma_escaped_injective(raw_a, raw_b);
    }
}

/// No escaped text is the one that stands for the text of a null.
proof fn lemma_marked_null(s: Seq<char>)
    ensures
        table_diff::escaped(s) != "\\NULL"@,
{
    reveal_strlit("\\NULL");
    let e = table_diff::escaped(s);
    if e == "\\NULL"@ {
        assert(e[0] == '\\');
        assert(e[1] == 'N');
        assert(e.len() == 5);
        if s.len() > 0 {
            if s[0] == '\\' || s[0] == '|' {
                assert(e[1] == s[0]);
            } else {
                assert(e[0] == s[0]);
            }
        }
    }
}

/// Texts with bars between, put together from the front.
spec fn front_joined(parts: Seq<Seq<char>>) -> Seq<char>
    decreases parts.len(),
{
    if parts.len() == 0 {
        Seq::empty()
    } else if parts.len() == 1 {
        parts[0]
    } else {
        parts[0] + (seq!['|'] + front_joined(parts.drop_first()))
    }
}

proof fn lemma_front_joined_push(parts: Seq<Seq<char>>, last: Seq<char>)
    requires
        parts.len() > 0,
    ensures
        front_joined(parts.push(last)) == front_joined(parts) + seq!['|'] + last,
    decreases parts.len(),
{
    let more = parts.push(last);
    if parts.len() == 1 {
        assert(more.drop_first() =~= seq![last]);
        assert(front_joined(seq![last]) == last);
        assert(front_joined(more) =~= parts[0] + seq!['|'] + last);
    } else {
        let rest = parts.drop_first();
        lemma_front_joined_push(rest, last);
        assert(more.drop_first() =~= rest.push(last));
        assert(front_joined(more) =~= front_joined(parts) + seq!['|'] + last);
    }
}

proof fn lemma_joined(parts: Seq<Seq<char>>, n: nat)
    requires
        n <= parts.len(),
    ensures
        text::joined_upto(parts, "|"@, n) == front_joined(parts.take(n as int)),
    decreases n,
{
    reveal_strlit("|");
    assert("|"@ =~= seq!['|']);
    if n == 0 {
        assert(parts.take(0) =~= Seq::<Seq<char>>::empty());
    } else if n == 1 {
        assert(parts.take(1)[0] == parts[0]);
    } else {
        let m = (n - 1) as nat;
        lemma_joined(parts, m);
        lemma_front_joined_push(parts.take(m as int), parts[m as int]);
        assert(parts.take(m as int).push(parts[m as int]) =~= parts.take(n as int));
    }
}

proof fn lemma_same_parts(a: Seq<RowValue>, b: Seq<RowValue>)
    requires
        a.len() == b.len(),
        front_joined(table_diff::key_texts(a)) == front_joined(table_diff::key_texts(b)),
    ensures
        alike(a, b),
    decreases a.len(),
{
    let parts_a = table_diff::key_texts(a);
    let parts_b = table_diff::key_texts(b);
    if a.len() == 1 {
        assert(parts_a[0] == table_diff::key_text(a[0]));
        assert(parts_b[0] == table_diff::key_text(b[0]));
        lemma_key_text_injective(a[0], b[0]);
    } else if a.len() > 1 {
        let less_a = a.drop_first();
        let less_b = b.drop_first();
        assert(parts_a.drop_first() =~= table_diff::key_texts(less_a));
        assert(parts_b.drop_first() =~= table_diff::key_texts(less_b));
        let rest_a = seq!['|'] + front_joined(parts_a.drop_first());
        let rest_b = seq!['|'] + front_joined(parts_b.drop_first());
        lemma_key_part(a[0], rest_a);
        lemma_key_part(b[0], rest_b);
        let whole_a = parts_a[0] + rest_a;
        let whole_b = parts_b[0] + rest_b;
        assert(whole_a == whole_b);
        assert(parts_a[0].len() == parts_b[0].len());
        assert(parts_a[0] =~= whole_a.take(parts_a[0].len() as int));
        assert(parts_b[0] =~= whole_b.take(parts_b[0].len() as int));
        lemma_key_text_injective(a[0], b[0]);
        let n = (parts_a[0].len() + 1) as int;
        assert(front_joined(parts_a.drop_first()) =~= whole_a.skip(n));
        assert(front_joined(parts_b.drop_first()) =~= whole_b.skip(n));
        lemma_same_parts(less_a, less_b);
        assert forall|i: int| 0 <= i < a.len() implies alike_values(#[trigger] a[i], b[i]) by {
            if i > 0 {
                assert(alike_values(less_a[i - 1], less_b[i - 1]));
            }
        }
    }
}

/// Keys of as many columns have the same text exactly where their values are alike: a bar or a
/// backslash in a value shifts nothing into the next column, and the text `NULL` is no null.
pub proof fn keys_tell_rows_apart(a: Seq<RowValue>, b: Seq<RowValue>)
    requires
        a.len() == b.len(),
    ensures
        table_diff::key_of_values(a) == table_diff::key_of_values(b) <==> alike(a, b),
{
    let parts_a = table_diff::key_texts(a);
    let parts_b = table_diff::key_texts(b);
    lemma_joined(parts_a, a.len());
    lemma_joined(parts_b, b.len());
    assert(parts_a.take(a.len() as int) =~= parts_a);
    assert(parts_b.take(b.len() as int) =~= parts_b);
    if table_diff::key_of_values(a) == table_diff::key_of_values(b) {
        lemma_same_parts(a, b);
    }
    if alike(a, b) {
        assert forall|i: int| 0 <= i < a.len() implies parts_a[i] == parts_b[i] by {
            assert(alike_values(a[i], b[i]));
        }
        assert(parts_a =~= parts_b);
    }
}

proof fn lemma_signed_decimal_injective(a: int, b: int)
    requires
        text::signed_decimal(a) == text::signed_decimal(b),
    ensures
        a == b,
{
    let s = text::signed_decimal(a);
    instant_laws::lemma_decimal(if a < 0 { (-a) as nat } else { a as nat });
    instant_laws::lemma_decimal(if b < 0 { (-b) as nat } else { b as nat });
    assert(a < 0 <==> s[0] == '-');
    assert(b < 0 <==> s[0] == '-');
    if a < 0 {
        assert(s.drop_first() =~= text::decimal((-a) as nat));
        assert(s.drop_first() =~= text::decimal((-b) as nat));
        instant_laws::lemma_decimal_injective((-a) as nat, (-b) as nat);
    } else {
        instant_laws::lemma_decimal_injective(a as nat, b as nat);
    }
}

/// The integer that a value holds.
pub open spec fn integer_of(value: RowValue) -> Option<int> {
    match value {
        RowValue::I16(v) => Some(v as int),
        RowValue::I32(v) => Some(v as int),
        RowValue::I64(v) => Some(v as int),
        _ => None,
    }
}

/// Integers that are alike are equal, whatever their widths.
pub proof fn alike_integers_are_equal(a: RowValue, b: RowValue)
    requires
        integer_of(a) is Some,
        integer_of(b) is Some,
    ensures
        alike_values(a, b) <==> integer_of(a) == integer_of(b),
{
    if alike_values(a, b) {
        lemma_signed_decimal_injective(integer_of(a)->0, integer_of(b)->0);
    }
}

/// How many numbers can be written with so many hexadecimal digits.
spec fn hex_limit(width: nat) -> nat
    decreases width,
{
    if width == 0 {
        1
    } else {
        16 * hex_limit((width - 1) as nat)
    }
}

proof fn lemma_hex_len(n: nat, width: nat)
    ensures
        types::hex(n, width).len() == width,
    decreases width,
{
    if width > 0 {
        lemma_hex_len(n / 16, (width - 1) as nat);
    }
}

proof fn lemma_hex_injective(a: nat, b: nat, width: nat)
    requires
        a < hex_limit(width),
        b < hex_limit(width),
        types::hex(a, width) == types::hex(b, width),
    ensures
        a == b,
    decreases width,
{
    if width > 0 {
        let s = types::hex(a, width);
        let less = (width - 1) as nat;
        lemma_hex_len(a / 16, less);
        lemma_hex_len(b / 16, less);
        assert(s.last() == types::hex_char(a % 16));
        assert(s.last() == types::hex_char(b % 16));
        assert(a % 16 == b % 16);
        assert(s.drop_last() =~= types::hex(a / 16, less));
        assert(s.drop_last() =~= types::hex(b / 16, less));
        lemma_hex_injective(a / 16, b / 16, less);
    }
}

proof fn lemma_uuid_injective(a: u128, b: u128)
    requires
        types::uuid_text(a) == types::uuid_text(b),
    ensures
        a == b,
{
    reveal_with_fuel(hex_limit, 33);
    let x = types::hex(a as nat, 32);
    let y = types::hex(b as nat, 32);
    lemma_hex_len(a as nat, 32);
    lemma_hex_len(b as nat, 32);
    let s = types::uuid_text(a);
    assert(s.subrange(0, 8) =~= x.subrange(0, 8) && s.subrange(0, 8) =~= y.subrange(0, 8));
    assert(s.subrange(9, 13) =~= x.subrange(8, 12) && s.subrange(9, 13) =~= y.subrange(8, 12));
    assert(s.subrange(14, 18) =~= x.subrange(12, 16) && s.subrange(14, 18) =~= y.subrange(12, 16));
    assert(s.subrange(19, 23) =~= x.subrange(16, 20) && s.subrange(19, 23) =~= y.subrange(16, 20));
    assert(s.subrange(24, 36) =~= x.subrange(20, 32) && s.subrange(24, 36) =~= y.subrange(20, 32));
    let parts_x = x.subrange(0, 8) + x.subrange(8, 12) + x.subrange(12, 16) + x.subrange(16, 20) + x.subrange(20, 32);
    let parts_y = y.subrange(0, 8) + y.subrange(8, 12) + y.subrange(12, 16) + y.subrange(16, 20) + y.subrange(20, 32);
    assert(x =~= parts_x);
    assert(y =~= parts_y);
    lemma_hex_injective(a as nat, b as nat, 32);
}

/// The texts of the first bytes, with commas between.
spec fn listed(bytes: Seq<u8>, n: nat) -> Seq<char> {
    text::joined_upto(table_diff::byte_numbers(bytes), ", "@, n)
}

proof fn lemma_listed_injective(a: Seq<u8>, b: Seq<u8>, n: nat, m: nat)
    requires
        n <= a.len(),
        m <= b.len(),
        listed(a, n) == listed(b, m),
    ensures
        n == m,
        a.take(n as int) == b.take(n as int),
    decreases n,
{
    reveal_strlit(", ");
    let s = listed(a, n);
    if n == 0 {
        if m > 0 {
            instant_laws::lemma_decimal(b[m - 1] as nat);
        }
        assert(a.take(0) =~= b.take(0));
    } else if m == 0 {
        instant_laws::lemma_decimal(a[n - 1] as nat);
    } else {
        let p = text::decimal(a[n - 1] as nat);
        let q = text::decimal(b[m - 1] as nat);
        instant_laws::lemma_decimal(a[n - 1] as nat);
        instant_laws::lemma_decimal(b[m - 1] as nat);
        let end = s.len() as int;
        assert(s.subrange(end - p.len(), end) =~= p);
        assert(s.subrange(end - q.len(), end) =~= q);
        if p.len() < q.len() {
            assert(n > 1);
            assert(s[end - p.len() - 1] == ' ');
            assert(s[end - p.len() - 1] == q[q.len() - p.len() - 1]);
        }
        if q.len() < p.len() {
            assert(m > 1);
            assert(s[end - q.len() - 1] == ' ');
            assert(s[end - q.len() - 1] == p[p.len() - q.len() - 1]);
        }
        instant_laws::lemma_decimal_injective(a[n - 1] as nat, b[m - 1] as nat);
        if n > 1 && m > 1 {
            let k = end - p.len() - 2;
            assert(s.take(k) =~= listed(a, (n - 1) as nat));
            assert(s.take(k) =~= listed(b, (m - 1) as nat));
            lemma_listed_injective(a, b, (n - 1) as nat, (m - 1) as nat);
            assert(a.take(n as int) =~= a.take(n - 1).push(a[n - 1]));
            assert(b.take(m as int) =~= b.take(m - 1).push(b[m - 1]));
        } else {
            if n > 1 {
                assert(s[end - p.len() - 1] == ' ');
            }
            if m > 1 {
                assert(s[end - q.len() - 1] == ' ');
            }
            assert(a.take(1) =~= b.take(1));
        }
    }
}

proof fn lemma_tagged(kind: Seq<char>, a: Seq<char>, b: Seq<char>)
    requires
        table_diff::tagged(kind, a) == table_diff::tagged(kind, b),
    ensures
        a == b,
{
    reveal_strlit("(");
    reveal_strlit(")");
    let s = table_diff::tagged(kind, a);
    let k = kind.len() as int;
    assert(s.subrange(k + 1, s.len() - 1) =~= a);
    assert(s.subrange(k + 1, s.len() - 1) =~= b);
}

proof fn lemma_bytes_injective(a: Seq<u8>, b: Seq<u8>)
    requires
        "["@ + text::joined(table_diff::byte_numbers(a), ", "@) + "]"@ == "["@ + text::joined(
            table_diff::byte_numbers(b),
            ", "@,
        ) + "]"@,
    ensures
        a == b,
{
    reveal_strlit("[");
    reveal_strlit("]");
    let s = "["@ + text::joined(table_diff::byte_numbers(a), ", "@) + "]"@;
    assert(s.subrange(1, s.len() - 1) =~= listed(a, a.len()));
    assert(s.subrange(1, s.len() - 1) =~= listed(b, b.len()));
    lemma_listed_injective(a, b, a.len(), b.len());
    assert(a.take(a.len() as int) =~= a);
    assert(b.take(a.len() as int) =~= b);
}

/// Whether two values are of the same kind, of which the texts tell apart all values: texts,
/// bytes, truth values, UUIDs, dates, and points in time without a leap second. Integers are
/// told apart whatever their widths. Nothing is said of floating point numbers, whose texts come
/// with them, nor of decimal numbers and JSON, whose texts are `Debug` forms.
pub open spec fn comparable(a: RowValue, b: RowValue) -> bool {
    match (a, b) {
        (RowValue::Text(_), RowValue::Text(_)) => true,
        (RowValue::Bytes(_), RowValue::Bytes(_)) => true,
        (RowValue::Bool(_), RowValue::Bool(_)) => true,
        (RowValue::Uuid(_), RowValue::Uuid(_)) => true,
        (RowValue::Date(_), RowValue::Date(_)) => true,
        (RowValue::Time(x), RowValue::Time(y)) => x.secs() < 86400 && y.secs() < 86400 && 0 <= x.secs() && 0
            <= y.secs() && 0 <= x.nanos() < instant::NANOS_PER_SECOND && 0 <= y.nanos() < instant::NANOS_PER_SECOND,
        (RowValue::Timestamp(x), RowValue::Timestamp(y)) => 0 <= x.nanos() < instant::NANOS_PER_SECOND && 0
            <= y.nanos() < instant::NANOS_PER_SECOND,
        (RowValue::TimestampTz(x), RowValue::TimestampTz(y)) => 0 <= x.nanos() < instant::NANOS_PER_SECOND && 0
            <= y.nanos() < instant::NANOS_PER_SECOND,
        _ => false,
    }
}

/// Values of the same kind that are alike are equal.
pub proof fn alike_values_are_equal(a: RowValue, b: RowValue)
    requires
        comparable(a, b),
    ensures
        alike_values(a, b) <==> types::values_equal(a, b),
{
    reveal_strlit("true");
    reveal_strlit("false");
    if alike_values(a, b) {
        match (a, b) {
            (RowValue::Bytes(x), RowValue::Bytes(y)) => {
                let p = "["@ + text::joined(table_diff::byte_numbers(x@), ", "@) + "]"@;
                let q = "["@ + text::joined(table_diff::byte_numbers(y@), ", "@) + "]"@;
                lemma_tagged("Bytes"@, p, q);
                lemma_bytes_injective(x@, y@);
            },
            (RowValue::Bool(x), RowValue::Bool(y)) => {
                let p = if x { "true"@ } else { "false"@ };
                let q = if y { "true"@ } else { "false"@ };
                lemma_tagged("Bool"@, p, q);
                assert("true"@.len() != "false"@.len());
            },
            (RowValue::Uuid(x), RowValue::Uuid(y)) => {
                lemma_uuid_injective(x, y);
            },
            (RowValue::Date(x), RowValue::Date(y)) => {
                lemma_tagged("Date"@, instant::date_text(x.day_number()), instant::date_text(y.day_number()));
                instant_laws::dates_do_not_collide(x.day_number(), y.day_number());
                instant::lemma_same_date(x, y);
            },
            (RowValue::Time(x), RowValue::Time(y)) => {
                let p = instant::clock_text(x.secs() as nat, x.nanos() as nat);
                let q = instant::clock_text(y.secs() as nat, y.nanos() as nat);
                lemma_tagged("Time"@, p, q);
                instant_laws::times_of_day_do_not_collide(
                    x.secs() as nat,
                    x.nanos() as nat,
                    y.secs() as nat,
                    y.nanos() as nat,
                );
                instant::lemma_same_time(x, y);
            },
            (RowValue::Timestamp(x), RowValue::Timestamp(y)) => {
                let p = instant::timestamp_text(x.secs(), x.nanos() as nat, 'T');
                let q = instant::timestamp_text(y.secs(), y.nanos() as nat, 'T');
                lemma_tagged("Timestamp"@, p, q);
                instant_laws::timestamps_do_not_collide(x.secs(), x.nanos() as nat, y.secs(), y.nanos() as nat);
                instant::lemma_same_timestamp(x, y);
            },
            (RowValue::TimestampTz(x), RowValue::TimestampTz(y)) => {
                let p = instant::timestamp_text(x.secs(), x.nanos() as nat, 'T');
                let q = instant::timestamp_text(y.secs(), y.nanos() as nat, 'T');
                lemma_tagged("TimestampTz"@, p + "Z"@, q + "Z"@);
                reveal_strlit("Z");
                assert((p + "Z"@).drop_last() =~= p);
                assert((q + "Z"@).drop_last() =~= q);
                instant_laws::timestamps_do_not_collide(x.secs(), x.nanos() as nat, y.secs(), y.nanos() as nat);
                instant::lemma_same_timestamp(x, y);
            },
            _ => {},
        }
    }
}

} // verus!
