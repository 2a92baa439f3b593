//! Points in time, dates and times of day as plain numbers.

use vstd::prelude::*;

use crate::outside;
use crate::text;

verus! {

/// The first second that a timestamp can hold: the start of the year -262143.
pub const MIN_SECONDS: i64 = -8334601228800;

/// The last second that a timestamp can hold: the end of the year 262142.
pub const MAX_SECONDS: i64 = 8210266876799;

/// The first date, as a number of days; the first of January of the year 1 is day 1.
pub const MIN_DAYS: i32 = -95746129;

/// The last date, as a number of days.
pub const MAX_DAYS: i32 = 95745399;

/// The number of nanoseconds in a second.
pub const NANOS_PER_SECOND: u32 = 1_000_000_000;

/// Whether a timestamp can hold a number of seconds.
pub open spec fn seconds_in_range(secs: int) -> bool {
    MIN_SECONDS <= secs <= MAX_SECONDS
}

/// A time in nanoseconds, cut to whole seconds towards zero.
pub open spec fn whole_seconds(nanos: int) -> int {
    if nanos < 0 {
        -((-nanos) / (NANOS_PER_SECOND as int))
    } else {
        nanos / (NANOS_PER_SECOND as int)
    }
}

/// A number in decimal, with as many digits as given.
pub open spec fn padded(n: nat, width: nat) -> Seq<char>
    decreases width,
{
    if width == 0 {
        Seq::empty()
    } else {
        padded(n / 10, (width - 1) as nat).push(text::digit_char(n % 10))
    }
}

/// The fraction of a second: nothing where it is zero, else as many groups of three digits as
/// it takes.
pub open spec fn fraction_text(nanos: nat) -> Seq<char> {
    if nanos == 0 {
        Seq::empty()
    } else if nanos % 1_000_000 == 0 {
        seq!['.'] + padded(nanos / 1_000_000, 3)
    } else if nanos % 1_000 == 0 {
        seq!['.'] + padded(nanos / 1_000, 6)
    } else {
        seq!['.'] + padded(nanos, 9)
    }
}

/// The text of a time of day.
pub open spec fn clock_text(secs: nat, nanos: nat) -> Seq<char> {
    padded(secs / 3600, 2) + seq![':'] + padded(secs / 60 % 60, 2) + seq![':'] + padded(secs % 60, 2)
        + fraction_text(nanos)
}

/// Whether a year has a leap day.
pub open spec fn is_leap_year(y: int) -> bool {
    y % 4 == 0 && (y % 100 != 0 || y % 400 == 0)
}

/// The number of days in a month.
pub open spec fn month_length(y: int, m: int) -> int {
    if m == 2 {
        if is_leap_year(y) {
            29
        } else {
            28
        }
    } else if m == 4 || m == 6 || m == 9 || m == 11 {
        30
    } else {
        31
    }
}

/// The number of days before a year, from the start of the year 1.
pub open spec fn days_before_year(y: int) -> int {
    365 * (y - 1) + (y - 1) / 4 - (y - 1) / 100 + (y - 1) / 400
}

/// The number of days of a year before a month.
pub open spec fn days_before_month(y: int, m: int) -> int
    decreases m,
{
    if m <= 1 {
        0
    } else {
        days_before_month(y, m - 1) + month_length(y, m - 1)
    }
}

/// Whether a day has a year, month and day of the month in the Gregorian calendar. The first of
/// January of the year 1 is day 1.
pub open spec fn is_date(days: int, y: int, m: int, d: int) -> bool {
    &&& 1 <= m <= 12
    &&& 1 <= d <= month_length(y, m)
    &&& days == days_before_year(y) + days_before_month(y, m) + d
}

/// The text of a year: four digits, and outside of these a sign and four digits or more.
pub open spec fn year_text(y: int) -> Seq<char> {
    if 0 <= y <= 9999 {
        padded(y as nat, 4)
    } else {
        let size = if y < 0 {
            (-y) as nat
        } else {
            y as nat
        };
        let sign = if y < 0 {
            '-'
        } else {
            '+'
        };
        seq![sign] + if size < 10000 {
            padded(size, 4)
        } else {
            text::decimal(size)
        }
    }
}

/// The text of a date: year, month and day of the month, with hyphens between.
pub open spec fn date_text(days: int) -> Seq<char> {
    let (y, m, d) = choose|y: int, m: int, d: int| is_date(days, y, m, d);
    year_text(y) + seq!['-'] + padded(m as nat, 2) + seq!['-'] + padded(d as nat, 2)
}

/// A day has one year, month and day of the month only.
pub proof fn a_day_has_one_date(days: int, y: int, m: int, d: int, z: int, n: int, e: int)
    requires
        is_date(days, y, m, d),
        is_date(days, z, n, e),
    ensures
        y == z && m == n && d == e,
{
    lemma_day_of_year(y, m, d);
    lemma_day_of_year(z, n, e);
    if m < n {
        lemma_months_ascend(y, m, n);
    } else if n < m {
        lemma_months_ascend(y, n, m);
    }
}

/// Every day has a year, month and day of the month.
pub proof fn every_day_has_a_date(days: int)
    ensures
        exists|y: int, m: int, d: int| is_date(days, y, m, d),
{
    if days >= 1 {
        lemma_date_after(days);
    } else {
        lemma_date_before(days);
    }
}

proof fn lemma_date_after(days: int)
    requires
        days >= 1,
    ensures
        exists|y: int, m: int, d: int| is_date(days, y, m, d),
    decreases days,
{
    if days == 1 {
        assert(is_date(1, 1, 1, 1));
    } else {
        let before = days - 1;
        lemma_date_after(before);
        let (y, m, d) = choose|y: int, m: int, d: int| is_date(before, y, m, d);
        if d < month_length(y, m) {
            assert(is_date(days, y, m, d + 1));
        } else if m < 12 {
            assert(is_date(days, y, m + 1, 1));
        } else {
            lemma_year_end(y);
            assert(is_date(days, y + 1, 1, 1));
        }
    }
}

proof fn lemma_date_before(days: int)
    requires
        days <= 1,
    ensures
        exists|y: int, m: int, d: int| is_date(days, y, m, d),
    decreases 1 - days,
{
    if days == 1 {
        assert(is_date(1, 1, 1, 1));
    } else {
        let after = days + 1;
        lemma_date_before(after);
        let (y, m, d) = choose|y: int, m: int, d: int| is_date(after, y, m, d);
        if d > 1 {
            assert(is_date(days, y, m, d - 1));
        } else if m > 1 {
            assert(days_before_month(y, m) == days_before_month(y, m - 1) + month_length(y, m - 1));
            assert(is_date(days, y, m - 1, month_length(y, m - 1)));
        } else {
            lemma_year_end(y - 1);
            assert(is_date(days, y - 1, 12, 31));
        }
    }
}

/// A year starts on the day after the last of December.
proof fn lemma_year_end(y: int)
    ensures
        days_before_year(y + 1) == days_before_year(y) + days_before_month(y, 12) + 31,
{
    lemma_months(y);
}

/// All months make up the year.
proof fn lemma_months(y: int)
    ensures
        days_before_month(y, 13) == if is_leap_year(y) { 366int } else { 365 },
{
    reveal_with_fuel(days_before_month, 14);
}

proof fn lemma_months_ascend(y: int, m: int, n: int)
    requires
        1 <= m < n <= 13,
    ensures
        days_before_month(y, m) + month_length(y, m) <= days_before_month(y, n),
    decreases n - m,
{
    if m + 1 < n {
        lemma_months_ascend(y, m, n - 1);
    }
}

/// A date is in its year.
proof fn lemma_day_of_year(y: int, m: int, d: int)
    requires
        1 <= m <= 12,
        1 <= d <= month_length(y, m),
    ensures
        days_before_year(y) < days_before_year(y) + days_before_month(y, m) + d <= days_before_year(y + 1),
{
    lemma_months(y);
    lemma_months_ascend(y, m, 13);
    if m > 1 {
        lemma_months_ascend(y, 1, m);
    }
}

/// The number of the day of a timestamp.
pub open spec fn day_of(secs: int) -> int {
    secs / 86400 + 719163
}

/// The text of a timestamp, with `sep` between the date and the time of day.
pub open spec fn timestamp_text(secs: int, nanos: nat, sep: char) -> Seq<char> {
    date_text(day_of(secs)) + seq![sep] + clock_text((secs % 86400) as nat, nanos)
}

/// A point in time without a leap second: seconds since the start of 1970, and nanoseconds
/// within the second.
#[derive(Clone, Copy, Debug, PartialEq, Eq, Structural)]
pub struct Timestamp {
    secs: i64,
    nanos: u32,
}

impl Timestamp {
    /// The seconds since the start of 1970.
    pub closed spec fn secs(self) -> int {
        self.secs as int
    }

    /// The nanoseconds within the second.
    pub closed spec fn nanos(self) -> int {
        self.nanos as int
    }

    /// The nanoseconds since the start of 1970.
    pub open spec fn total_nanos(self) -> int {
        self.secs() * (NANOS_PER_SECOND as int) + self.nanos()
    }

    #[verifier::type_invariant]
    spec fn representable(self) -> bool {
        seconds_in_range(self.secs as int) && self.nanos < NANOS_PER_SECOND
    }

    /// The timestamp of the given seconds and nanoseconds, where they are in range.
    pub fn new(secs: i64, nanos: u32) -> (r: Option<Timestamp>)
        ensures
            r is Some <==> seconds_in_range(secs as int) && nanos < NANOS_PER_SECOND,
            r matches Some(t) ==> t.secs() == secs && t.nanos() == nanos,
    {
        if secs < MIN_SECONDS || secs > MAX_SECONDS || nanos >= NANOS_PER_SECOND {
            None
        } else {
            Some(Timestamp { secs, nanos })
        }
    }

    /// The seconds since the start of 1970.
    pub fn seconds(&self) -> (r: i64)
        ensures
            r == self.secs(),
            seconds_in_range(r as int),
    {
        proof { use_type_invariant(self); }
        self.secs
    }

    /// The nanoseconds within the second.
    pub fn subsec_nanos(&self) -> (r: u32)
        ensures
            r == self.nanos(),
            r < NANOS_PER_SECOND,
    {
        proof { use_type_invariant(self); }
        self.nanos
    }

    /// The timestamp a number of seconds later, where it is in range.
    pub fn plus_seconds(&self, delta: i64) -> (r: Option<Timestamp>)
        ensures
            r is Some <==> seconds_in_range(self.secs() + delta),
            r matches Some(t) ==> t.secs() == self.secs() + delta && t.nanos() == self.nanos(),
    {
        proof { use_type_invariant(self); }
        match self.secs.checked_add(delta) {
            Some(secs) => Timestamp::new(secs, self.nanos),
            None => None,
        }
    }

    /// The whole seconds from this timestamp to another, cut towards zero.
    pub fn seconds_until(&self, later: &Timestamp) -> (r: i64)
        ensures
            r == whole_seconds(later.total_nanos() - self.total_nanos()),
    {
        proof {
            use_type_invariant(self);
            use_type_invariant(later);
        }
        let secs: i64 = later.secs - self.secs;
        if secs > 0 && later.nanos < self.nanos {
            secs - 1
        } else if secs < 0 && later.nanos > self.nanos {
            secs + 1
        } else {
            secs
        }
    }

    /// The text of the timestamp in a literal.
    pub fn literal_text(&self) -> (r: String)
        ensures
            r@ == timestamp_text(self.secs(), self.nanos() as nat, ' '),
    {
        proof { use_type_invariant(self); }
        outside::format_timestamp(self.secs, self.nanos, "%Y-%m-%d %H:%M:%S%.f")
    }

    /// The text of the timestamp with its offset from UTC in a literal.
    pub fn literal_text_with_zone(&self) -> (r: String)
        ensures
            r@ == timestamp_text(self.secs(), self.nanos() as nat, ' ') + "+00:00"@,
    {
        proof { use_type_invariant(self); }
        outside::format_timestamptz(self.secs, self.nanos, "%Y-%m-%d %H:%M:%S%.f%:z")
    }

    /// The text of the timestamp on its own.
    pub fn plain_text(&self) -> (r: String)
        ensures
            r@ == timestamp_text(self.secs(), self.nanos() as nat, ' '),
    {
        proof { use_type_invariant(self); }
        outside::display_timestamp(self.secs, self.nanos)
    }

    /// The text of the timestamp as a part of a key.
    pub fn key_text(&self) -> (r: String)
        ensures
            r@ == timestamp_text(self.secs(), self.nanos() as nat, 'T'),
    {
        proof { use_type_invariant(self); }
        outside::debug_timestamp(self.secs, self.nanos)
    }

    /// The text of the timestamp in UTC as a part of a key.
    pub fn key_text_with_zone(&self) -> (r: String)
        ensures
            r@ == timestamp_text(self.secs(), self.nanos() as nat, 'T') + "Z"@,
    {
        proof { use_type_invariant(self); }
        outside::debug_timestamptz(self.secs, self.nanos)
    }
}

/// A date, as a number of days.
#[derive(Clone, Copy, Debug, PartialEq, Eq, Structural)]
pub struct CalendarDate {
    days: i32,
}

impl CalendarDate {
    /// The number of days; the first of January of the year 1 is day 1.
    pub closed spec fn day_number(self) -> int {
        self.days as int
    }

    #[verifier::type_invariant]
    spec fn representable(self) -> bool {
        MIN_DAYS <= self.days <= MAX_DAYS
    }

    /// The date of the given day, where it is in range.
    pub fn new(days: i32) -> (r: Option<CalendarDate>)
        ensures
            r is Some <==> MIN_DAYS <= days <= MAX_DAYS,
            r matches Some(d) ==> d.day_number() == days,
    {
        if days < MIN_DAYS || days > MAX_DAYS {
            None
        } else {
            Some(CalendarDate { days })
        }
    }

    /// The text of the date in a literal.
    pub fn literal_text(&self) -> (r: String)
        ensures
            r@ == date_text(self.day_number()),
    {
        proof { use_type_invariant(self); }
        outside::format_date(self.days, "%Y-%m-%d")
    }

    /// The text of the date as a part of a key.
    pub fn key_text(&self) -> (r: String)
        ensures
            r@ == date_text(self.day_number()),
    {
        proof { use_type_invariant(self); }
        outside::debug_date(self.days)
    }
}

/// A time of day without a leap second: seconds since midnight, and nanoseconds within the
/// second.
#[derive(Clone, Copy, Debug, PartialEq, Eq, Structural)]
pub struct TimeOfDay {
    secs: u32,
    nanos: u32,
}

impl TimeOfDay {
    /// The seconds since midnight.
    pub closed spec fn secs(self) -> int {
        self.secs as int
    }

    /// The nanoseconds within the second.
    pub closed spec fn nanos(self) -> int {
        self.nanos as int
    }

    #[verifier::type_invariant]
    spec fn representable(self) -> bool {
        self.secs < 86400 && self.nanos < NANOS_PER_SECOND
    }

    /// The time of day of the given seconds and nanoseconds, where they are in range.
    pub fn new(secs: u32, nanos: u32) -> (r: Option<TimeOfDay>)
        ensures
            r is Some <==> secs < 86400 && nanos < NANOS_PER_SECOND,
            r matches Some(t) ==> t.secs() == secs && t.nanos() == nanos,
    {
        if secs >= 86400 || nanos >= NANOS_PER_SECOND {
            None
        } else {
            Some(TimeOfDay { secs, nanos })
        }
    }

    /// The text of the time in a literal.
    pub fn literal_text(&self) -> (r: String)
        ensures
            r@ == clock_text(self.secs() as nat, self.nanos() as nat),
    {
        proof { use_type_invariant(self); }
        outside::format_time(self.secs, self.nanos, "%H:%M:%S%.f")
    }

    /// The text of the time as a part of a key.
    pub fn key_text(&self) -> (r: String)
        ensures
            r@ == clock_text(self.secs() as nat, self.nanos() as nat),
    {
        proof { use_type_invariant(self); }
        outside::debug_time(self.secs, self.nanos)
    }
}

/// A timestamp is its seconds and nanoseconds.
pub proof fn lemma_same_timestamp(a: Timestamp, b: Timestamp)
    requires
        a.secs() == b.secs(),
        a.nanos() == b.nanos(),
    ensures
        a == b,
{
}

/// A date is its day.
pub proof fn lemma_same_date(a: CalendarDate, b: CalendarDate)
    requires
        a.day_number() == b.day_number(),
    ensures
        a == b,
{
}

/// A time of day is its seconds and nanoseconds.
pub proof fn lemma_same_time(a: TimeOfDay, b: TimeOfDay)
    requires
        a.secs() == b.secs(),
        a.nanos() == b.nanos(),
    ensures
        a == b,
{
}

} // verus!
