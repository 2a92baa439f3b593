//! The texts of points in time, dates and times of day tell them apart.

use vstd::prelude::*;

use crate::instant;
use crate::text;
use crate::text_laws;

verus! {

/// How many numbers can be written with so many digits.
spec fn limit(width: nat) -> nat
    decreases width,
{
    if width == 0 {
        1
    } else {
        10 * limit((width - 1) as nat)
    }
}

/// Whether a character is a digit.
pub open spec fn is_digit(c: char) -> bool {
    '0' <= c <= '9'
}

proof fn lemma_padded(n: nat, width: nat)
    ensures
        instant::padded(n, width).len() == width,
        forall|i: int| 0 <= i < width ==> is_digit(#[trigger] instant::padded(n, width)[i]),
    decreases width,
{
    if width > 0 {
        lemma_padded(n / 10, (width - 1) as nat);
        let less = instant::padded(n / 10, (width - 1) as nat);
        assert forall|i: int| 0 <= i < width implies is_digit(#[trigger] instant::padded(n, width)[i]) by {
            if i < width - 1 {
                assert(is_digit(less[i]));
            }
        }
    }
}

proof fn lemma_padded_injective(a: nat, b: nat, width: nat)
    requires
        a < limit(width),
        b < limit(width),
        instant::padded(a, width) == instant::padded(b, width),
    ensures
        a == b,
    decreases width,
{
    if width > 0 {
        let s = instant::padded(a, width);
        let less = (width - 1) as nat;
        lemma_padded(a / 10, less);
        lemma_padded(b / 10, less);
        assert(s.last() == text::digit_char(a % 10));
        assert(s.last() == text::digit_char(b % 10));
        assert(s.drop_last() =~= instant::padded(a / 10, less));
        assert(s.drop_last() =~= instant::padded(b / 10, less));
        lemma_padded_injective(a / 10, b / 10, less);
    }
}

proof fn lemma_fraction(nanos: nat)
    requires
        nanos < 1_000_000_000,
    ensures
        instant::fraction_text(nanos).len() == if nanos == 0 {
            0int
        } else if nanos % 1_000_000 == 0 {
            4
        } else if nanos % 1_000 == 0 {
            7
        } else {
            10
        },
{
    lemma_padded(nanos / 1_000_000, 3);
    lemma_padded(nanos / 1_000, 6);
    lemma_padded(nanos, 9);
}

proof fn lemma_fraction_injective(a: nat, b: nat)
    requires
        a < 1_000_000_000,
        b < 1_000_000_000,
        instant::fraction_text(a) == instant::fraction_text(b),
    ensures
        a == b,
{
    reveal_with_fuel(limit, 10);
    lemma_fraction(a);
    lemma_fraction(b);
    let s = instant::fraction_text(a);
    if s.len() == 4 {
        assert(s.drop_first() =~= instant::padded(a / 1_000_000, 3));
        assert(s.drop_first() =~= instant::padded(b / 1_000_000, 3));
        lemma_padded_injective(a / 1_000_000, b / 1_000_000, 3);
    } else if s.len() == 7 {
        assert(s.drop_first() =~= instant::padded(a / 1_000, 6));
        assert(s.drop_first() =~= instant::padded(b / 1_000, 6));
        lemma_padded_injective(a / 1_000, b / 1_000, 6);
    } else if s.len() == 10 {
        assert(s.drop_first() =~= instant::padded(a, 9));
        assert(s.drop_first() =~= instant::padded(b, 9));
        lemma_padded_injective(a, b, 9);
    }
}

/// Times of day that are written alike are the same.
pub proof fn times_of_day_do_not_collide(secs: nat, nanos: nat, other_secs: nat, other_nanos: nat)
    requires
        secs < 86400,
        other_secs < 86400,
        nanos < instant::NANOS_PER_SECOND,
        other_nanos < instant::NANOS_PER_SECOND,
        instant::clock_text(secs, nanos) == instant::clock_text(other_secs, other_nanos),
    ensures
        secs == other_secs,
        nanos == other_nanos,
{
    reveal_with_fuel(limit, 10);
    let s = instant::clock_text(secs, nanos);
    lemma_padded(secs / 3600, 2);
    lemma_padded(secs / 60 % 60, 2);
    lemma_padded(secs % 60, 2);
    lemma_padded(other_secs / 3600, 2);
    lemma_padded(other_secs / 60 % 60, 2);
    lemma_padded(other_secs % 60, 2);
    assert(s.subrange(0, 2) =~= instant::padded(secs / 3600, 2));
    assert(s.subrange(0, 2) =~= instant::padded(other_secs / 3600, 2));
    assert(s.subrange(3, 5) =~= instant::padded(secs / 60 % 60, 2));
    assert(s.subrange(3, 5) =~= instant::padded(other_secs / 60 % 60, 2));
    assert(s.subrange(6, 8) =~= instant::padded(secs % 60, 2));
    assert(s.subrange(6, 8) =~= instant::padded(other_secs % 60, 2));
    assert(s.skip(8) =~= instant::fraction_text(nanos));
    assert(s.skip(8) =~= instant::fraction_text(other_nanos));
    lemma_padded_injective(secs / 3600, other_secs / 3600, 2);
    lemma_padded_injective(secs / 60 % 60, other_secs / 60 % 60, 2);
    lemma_padded_injective(secs % 60, other_secs % 60, 2);
    lemma_fraction_injective(nanos, other_nanos);
}

/// A number is written with digits, at least one of them, and one more for each ten times as much.
pub proof fn lemma_decimal(n: nat)
    ensures
        text::decimal(n).len() >= 1,
        forall|i: int| 0 <= i < text::decimal(n).len() ==> is_digit(#[trigger] text::decimal(n)[i]),
        n >= 10 ==> text::decimal(n).len() == text::decimal(n / 10).len() + 1,
    decreases n,
{
    if n >= 10 {
        lemma_decimal(n / 10);
        let less = text::decimal(n / 10);
        assert forall|i: int| 0 <= i < text::decimal(n).len() implies is_digit(#[trigger] text::decimal(n)[i]) by {
            if i < less.len() {
                assert(is_digit(less[i]));
            }
        }
    }
}

/// Numbers that are written alike are the same.
pub proof fn lemma_decimal_injective(a: nat, b: nat)
    requires
        text::decimal(a) == text::decimal(b),
    ensures
        a == b,
    decreases a,
{
    lemma_decimal(a);
    lemma_decimal(b);
    let s = text::decimal(a);
    assert(s.last() == text::digit_char(a % 10));
    assert(s.last() == text::digit_char(b % 10));
    assert(a % 10 == b % 10);
    if a >= 10 {
        lemma_decimal(a / 10);
        assert(b >= 10);
        assert(s.drop_last() =~= text::decimal(a / 10));
        assert(s.drop_last() =~= text::decimal(b / 10));
        lemma_decimal_injective(a / 10, b / 10);
    }
}

/// The size of a year.
spec fn size_of_year(y: int) -> nat {
    if y < 0 {
        (-y) as nat
    } else {
        y as nat
    }
}

proof fn lemma_year(y: int)
    ensures
        instant::year_text(y).len() >= 4,
        0 <= y <= 9999 ==> instant::year_text(y).len() == 4 && is_digit(instant::year_text(y)[0]),
        y < 0 ==> instant::year_text(y)[0] == '-',
        y > 9999 ==> instant::year_text(y)[0] == '+',
        !(0 <= y <= 9999) && size_of_year(y) < 10000 ==> instant::year_text(y).len() == 5,
        !(0 <= y <= 9999) && size_of_year(y) >= 10000 ==> instant::year_text(y).len() >= 6,
        forall|i: int| 0 <= i < instant::year_text(y).len() ==> (#[trigger] instant::year_text(y)[i]) != 'T',
{
    let size = size_of_year(y);
    lemma_padded(size, 4);
    lemma_decimal(size);
    if size >= 10000 {
        lemma_decimal(size / 10);
        lemma_decimal(size / 100);
        lemma_decimal(size / 1000);
        lemma_decimal(size / 10000);
        assert(size / 10 / 10 == size / 100);
        assert(size / 100 / 10 == size / 1000);
        assert(size / 1000 / 10 == size / 10000);
    }
    let s = instant::year_text(y);
    assert forall|i: int| 0 <= i < s.len() implies (#[trigger] s[i]) != 'T' by {
        if 0 <= y <= 9999 {
            assert(is_digit(instant::padded(size, 4)[i]));
        } else if i > 0 {
            if size < 10000 {
                assert(s[i] == instant::padded(size, 4)[i - 1]);
            } else {
                assert(s[i] == text::decimal(size)[i - 1]);
            }
        }
    }
}

proof fn lemma_year_injective(a: int, b: int)
    requires
        instant::year_text(a) == instant::year_text(b),
    ensures
        a == b,
{
    reveal_with_fuel(limit, 10);
    lemma_year(a);
    lemma_year(b);
    let s = instant::year_text(a);
    if 0 <= a <= 9999 {
        assert(0 <= b <= 9999);
        lemma_padded_injective(a as nat, b as nat, 4);
    } else {
        assert(!(0 <= b <= 9999));
        assert((a < 0) == (b < 0));
        let x = size_of_year(a);
        let y = size_of_year(b);
        if x < 10000 {
            assert(s.drop_first() =~= instant::padded(x, 4));
            assert(s.drop_first() =~= instant::padded(y, 4));
            lemma_padded_injective(x, y, 4);
        } else {
            assert(s.drop_first() =~= text::decimal(x));
            assert(s.drop_first() =~= text::decimal(y));
            lemma_decimal_injective(x, y);
        }
    }
}

/// Dates that are written alike are the same day.
pub proof fn dates_do_not_collide(days: int, other_days: int)
    requires
        instant::date_text(days) == instant::date_text(other_days),
    ensures
        days == other_days,
{
    reveal_with_fuel(limit, 10);
    instant::every_day_has_a_date(days);
    instant::every_day_has_a_date(other_days);
    let (y, m, d) = choose|y: int, m: int, d: int| instant::is_date(days, y, m, d);
    let (z, n, e) = choose|y: int, m: int, d: int| instant::is_date(other_days, y, m, d);
    let s = instant::date_text(days);
    lemma_year(y);
    lemma_year(z);
    lemma_padded(m as nat, 2);
    lemma_padded(d as nat, 2);
    lemma_padded(n as nat, 2);
    lemma_padded(e as nat, 2);
    let k = s.len() - 6;
    assert(instant::year_text(y).len() == k);
    assert(instant::year_text(z).len() == k);
    assert(s.take(k) =~= instant::year_text(y));
    assert(s.take(k) =~= instant::year_text(z));
    assert(s.subrange(k + 1, k + 3) =~= instant::padded(m as nat, 2));
    assert(s.subrange(k + 1, k + 3) =~= instant::padded(n as nat, 2));
    assert(s.subrange(k + 4, k + 6) =~= instant::padded(d as nat, 2));
    assert(s.subrange(k + 4, k + 6) =~= instant::padded(e as nat, 2));
    lemma_year_injective(y, z);
    lemma_padded_injective(m as nat, n as nat, 2);
    lemma_padded_injective(d as nat, e as nat, 2);
}

proof fn lemma_date_plain(days: int)
    ensures
        forall|i: int| 0 <= i < instant::date_text(days).len() ==> (#[trigger] instant::date_text(days)[i]) != 'T',
{
    let (y, m, d) = choose|y: int, m: int, d: int| instant::is_date(days, y, m, d);
    lemma_year(y);
    lemma_padded(m as nat, 2);
    lemma_padded(d as nat, 2);
    let s = instant::date_text(days);
    let k = instant::year_text(y).len() as int;
    assert forall|i: int| 0 <= i < s.len() implies (#[trigger] s[i]) != 'T' by {
        if i < k {
            assert(s[i] == instant::year_text(y)[i]);
        } else if k < i < k + 3 {
            assert(s[i] == instant::padded(m as nat, 2)[i - k - 1]);
        } else if k + 3 < i {
            assert(s[i] == instant::padded(d as nat, 2)[i - k - 4]);
        }
    }
}

/// Timestamps that are written alike, with a `T` between date and time of day, are the same.
pub proof fn timestamps_do_not_collide(secs: int, nanos: nat, other_secs: int, other_nanos: nat)
    requires
        nanos < instant::NANOS_PER_SECOND,
        other_nanos < instant::NANOS_PER_SECOND,
        instant::timestamp_text(secs, nanos, 'T') == instant::timestamp_text(other_secs, other_nanos, 'T'),
    ensures
        secs == other_secs,
        nanos == other_nanos,
{
    let s = instant::timestamp_text(secs, nanos, 'T');
    let a = instant::date_text(instant::day_of(secs));
    let b = instant::date_text(instant::day_of(other_secs));
    lemma_date_plain(instant::day_of(secs));
    lemma_date_plain(instant::day_of(other_secs));
    assert(s[a.len() as int] == 'T');
    assert(s[b.len() as int] == 'T');
    if a.len() < b.len() {
        assert(s[a.len() as int] == b[a.len() as int]);
    }
    if b.len() < a.len() {
        assert(s[b.len() as int] == a[b.len() as int]);
    }
    let k = a.len() as int;
    assert(s.take(k) =~= a);
    assert(s.take(k) =~= b);
    let x = instant::clock_text((secs % 86400) as nat, nanos);
    let y = instant::clock_text((other_secs % 86400) as nat, other_nanos);
    assert(s.skip(k + 1) =~= x);
    assert(s.skip(k + 1) =~= y);
    dates_do_not_collide(instant::day_of(secs), instant::day_of(other_secs));
    times_of_day_do_not_collide((secs % 86400) as nat, nanos, (other_secs % 86400) as nat, other_nanos);
}

/// The days of the calendar follow one on the other: the year after the last of December, the
/// month after its last day. January, March, May, July, August, October and December have 31 days,
/// April, June, September and November have 30, and February has 28, or 29 in a year that four
/// divides, but not in one that a hundred divides and four hundred does not.
pub proof fn days_follow_one_on_the_other(days: int, y: int, m: int, d: int)
    requires
        instant::is_date(days, y, m, d),
    ensures
        ({
            let leap = y % 4 == 0 && (y % 100 != 0 || y % 400 == 0);
            let length = if m == 2 && leap {
                29int
            } else if m == 2 {
                28
            } else if m == 4 || m == 6 || m == 9 || m == 11 {
                30
            } else {
                31
            };
            &&& 1 <= m <= 12 && 1 <= d <= length
            &&& d < length ==> instant::is_date(days + 1, y, m, d + 1)
            &&& d == length && m < 12 ==> instant::is_date(days + 1, y, m + 1, 1)
            &&& d == length && m == 12 ==> instant::is_date(days + 1, y + 1, 1, 1)
        }),
{
    if m < 12 {
        assert(instant::days_before_month(y, m + 1) == instant::days_before_month(y, m) + instant::month_length(y, m));
    } else {
        reveal_with_fuel(instant::days_before_month, 13);
        assert(y / 4 - (y - 1) / 4 == if y % 4 == 0 { 1int } else { 0 });
        assert(y / 100 - (y - 1) / 100 == if y % 100 == 0 { 1int } else { 0 });
        assert(y / 400 - (y - 1) / 400 == if y % 400 == 0 { 1int } else { 0 });
    }
}

/// Seconds are counted from the start of the first of January 1970, and a day has 86400 of them.
pub proof fn seconds_are_counted_from_1970(secs: int)
    ensures
        instant::is_date(instant::day_of(0), 1970, 1, 1),
        instant::day_of(secs + 24 * 60 * 60) == instant::day_of(secs) + 1,
        0 <= secs < 24 * 60 * 60 ==> instant::day_of(secs) == instant::day_of(0),
{
    reveal_with_fuel(instant::days_before_month, 2);
}

/// A number with leading zeros has so many digits and is read back from them.
pub proof fn padded_numbers_read_back(n: nat, width: nat)
    requires
        n < vstd::arithmetic::power::pow(10, width),
    ensures
        instant::padded(n, width).len() == width,
        text_laws::read_decimal(instant::padded(n, width)) == n,
    decreases width,
{
    lemma_padded(n, width);
    if width > 0 {
        let less = (width - 1) as nat;
        reveal(vstd::arithmetic::power::pow);
        assert(n / 10 < vstd::arithmetic::power::pow(10, less));
        padded_numbers_read_back(n / 10, less);
        assert(instant::padded(n, width).drop_last() =~= instant::padded(n / 10, less));
    } else {
        reveal(vstd::arithmetic::power::pow);
    }
}

/// A time of day is written as hours, minutes and seconds of two digits each, and then what is left
/// of the second, in as few groups of three digits as it takes.
pub proof fn a_time_is_written_by_the_clock(hours: nat, minutes: nat, seconds: nat, nanos: nat)
    requires
        hours < 24,
        minutes < 60,
        seconds < 60,
        nanos < 1_000_000_000,
    ensures
        instant::clock_text(hours * 3600 + minutes * 60 + seconds, nanos) == instant::padded(hours, 2) + seq![':']
            + instant::padded(minutes, 2) + seq![':'] + instant::padded(seconds, 2) + instant::fraction_text(nanos),
        nanos == 0 ==> instant::fraction_text(nanos).len() == 0,
        nanos > 0 ==> {
            let fraction = instant::fraction_text(nanos);
            let read = text_laws::read_decimal(fraction.drop_first());
            &&& fraction[0] == '.'
            &&& fraction.len() == 4 || fraction.len() == 7 || fraction.len() == 10
            &&& fraction.len() == 4 ==> read * 1_000_000 == nanos
            &&& fraction.len() == 7 ==> read * 1_000 == nanos && nanos % 1_000_000 != 0
            &&& fraction.len() == 10 ==> read == nanos && nanos % 1_000 != 0
        },
{
    let secs = hours * 3600 + minutes * 60 + seconds;
    assert(secs / 3600 == hours);
    assert(secs / 60 == hours * 60 + minutes);
    assert(secs / 60 % 60 == minutes);
    assert(secs % 60 == seconds);
    if nanos > 0 {
        let fraction = instant::fraction_text(nanos);
        vstd::arithmetic::power::lemma_pow1(10);
        assert(vstd::arithmetic::power::pow(10, 3) == 1_000 && vstd::arithmetic::power::pow(10, 6) == 1_000_000
            && vstd::arithmetic::power::pow(10, 9) == 1_000_000_000) by {
            reveal_with_fuel(vstd::arithmetic::power::pow, 10);
        }
        if nanos % 1_000_000 == 0 {
            padded_numbers_read_back(nanos / 1_000_000, 3);
            assert(fraction.drop_first() =~= instant::padded(nanos / 1_000_000, 3));
        } else if nanos % 1_000 == 0 {
            padded_numbers_read_back(nanos / 1_000, 6);
            assert(fraction.drop_first() =~= instant::padded(nanos / 1_000, 6));
        } else {
            padded_numbers_read_back(nanos, 9);
            assert(fraction.drop_first() =~= instant::padded(nanos, 9));
        }
    }
}

/// A date is written as its year, month and day, and a point in time as its date and what has
/// passed of its day.
pub proof fn a_date_is_written_year_first(days: int, y: int, m: int, d: int, secs: int, nanos: nat, sep: char)
    requires
        instant::is_date(days, y, m, d),
        0 <= secs < 24 * 60 * 60,
    ensures
        instant::date_text(days) == instant::year_text(y) + seq!['-'] + instant::padded(m as nat, 2) + seq!['-']
            + instant::padded(d as nat, 2),
        instant::timestamp_text((days - instant::day_of(0)) * (24 * 60 * 60) + secs, nanos, sep)
            == instant::date_text(days) + seq![sep] + instant::clock_text(secs as nat, nanos),
        0 <= y <= 9999 ==> instant::year_text(y) == instant::padded(y as nat, 4),
        -9999 <= y < 0 ==> instant::year_text(y) == seq!['-'] + instant::padded((-y) as nat, 4),
        y < -9999 ==> instant::year_text(y) == seq!['-'] + text::decimal((-y) as nat),
        y > 9999 ==> instant::year_text(y) == seq!['+'] + text::decimal(y as nat),
{
    let (z, n, e) = choose|z: int, n: int, e: int| instant::is_date(days, z, n, e);
    instant::a_day_has_one_date(days, y, m, d, z, n, e);
    let at = (days - instant::day_of(0)) * (24 * 60 * 60) + secs;
    assert(instant::day_of(at) == days);
    assert(at % 86400 == secs);
}

/// What is less than a second is cut off, towards zero.
pub proof fn seconds_are_cut_towards_zero(secs: int, nanos: int)
    requires
        secs >= 0,
        0 <= nanos < 1_000_000_000,
    ensures
        instant::whole_seconds(secs * 1_000_000_000 + nanos) == secs,
        instant::whole_seconds(-(secs * 1_000_000_000 + nanos)) == -secs,
{
}

} // verus!
