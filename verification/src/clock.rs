//! Reading the wall clock, and the calendar. Nothing is promised of which instant it is; every rule
//! that depends on the time takes it as an argument.

use chrono::{Datelike, Timelike};

use vstd::prelude::*;
use vstd::string::*;

use crate::text::{
    decimal, digit_char, law_padding_keeps_the_number, lemma_text_before_at,
    lemma_text_not_before_itself, number_of, text_before, zero_padded, zero_padded_text,
};

verus! {

/// `std::time::SystemTime::elapsed` of the Unix epoch, as whole nanoseconds; `None` where the clock
/// stands before it. Nothing is claimed of the value.
#[verifier::external_body]
fn nanos_since_epoch() -> (r: Option<u128>) {
    std::time::UNIX_EPOCH.elapsed().ok().map(|d| d.as_nanos())
}

/// Nanoseconds since the epoch in units of `unit` nanoseconds, as far as 64 bits hold them; 0
/// where the clock stands before the epoch.
pub open spec fn in_units(reading: Option<u128>, unit: int) -> int {
    match reading {
        Some(n) => (n as int / unit) % 0x1_0000_0000_0000_0000,
        None => 0,
    }
}

/// The nanoseconds of the second that the clock stands in; 0 before the epoch.
pub open spec fn within_second(reading: Option<u128>) -> int {
    match reading {
        Some(n) => n as int % 1_000_000_000,
        None => 0,
    }
}

/// A number cut to its lower 64 bits.
fn lower_64(n: u128) -> (r: u64)
    ensures
        r == n as int % 0x1_0000_0000_0000_0000,
{
    assert(#[verifier::truncate] (n as u64) == n % 0x1_0000_0000_0000_0000u128) by (bit_vector);
    #[verifier::truncate]
    (n as u64)
}

/// A reading of the clock in microseconds.
pub fn micros_of(reading: Option<u128>) -> (r: u64)
    ensures
        r == in_units(reading, 1_000),
{
    match reading {
        Some(n) => lower_64(n / 1_000),
        None => 0,
    }
}

/// A reading of the clock in milliseconds.
pub fn millis_of(reading: Option<u128>) -> (r: u64)
    ensures
        r == in_units(reading, 1_000_000),
{
    match reading {
        Some(n) => lower_64(n / 1_000_000),
        None => 0,
    }
}

/// How far into its second a reading of the clock stands, in nanoseconds.
pub fn subsec_of(reading: Option<u128>) -> (r: u64)
    ensures
        r == within_second(reading),
{
    match reading {
        Some(n) => (n % 1_000_000_000) as u64,
        None => 0,
    }
}

/// Microseconds since the Unix epoch, 0 where the clock stands before it: what [`micros_of`]
/// makes of the reading. The clock may show any of them.
pub(crate) fn unix_micros() -> u64 {
    micros_of(nanos_since_epoch())
}

/// Milliseconds since the Unix epoch, 0 where the clock stands before it: what [`millis_of`]
/// makes of the reading. The clock may show any of them.
pub(crate) fn unix_millis() -> u64 {
    millis_of(nanos_since_epoch())
}

/// The nanoseconds of the second that the clock stands in, 0 where it stands before the epoch:
/// what [`subsec_of`] makes of the reading.
pub(crate) fn subsec_nanos() -> (r: u64)
    ensures
        r < 1_000_000_000,
{
    subsec_of(nanos_since_epoch())
}

/// A date and a time of day in some time zone.
#[derive(Clone, Copy, Debug, PartialEq, Eq, Structural)]
pub struct LocalTime {
    pub year: i32,
    pub month: u32,
    pub day: u32,
    pub hour: u32,
    pub minute: u32,
    pub second: u32,
}

impl LocalTime {
    /// Every field is in the range of a calendar and a clock.
    pub open spec fn wf(self) -> bool {
        &&& 1 <= self.month <= 12
        &&& 1 <= self.day <= 31
        &&& self.hour < 24
        &&& self.minute < 60
        &&& self.second < 60
    }
}

/// The most days back from now that are still on chrono's calendar, whatever day it is: those from
/// its first day, the first of January of the year -262143, to that of 1970.
pub const MAX_DAYS_BACK: u32 = 96_465_292;

/// Is the year one of 366 days?
pub open spec fn is_leap(year: int) -> bool {
    year % 4 == 0 && (year % 100 != 0 || year % 400 == 0)
}

/// The days of a month.
pub open spec fn days_in_month(year: int, month: int) -> int {
    if month == 2 {
        if is_leap(year) {
            29
        } else {
            28
        }
    } else if month == 4 || month == 6 || month == 9 || month == 11 {
        30
    } else {
        31
    }
}

/// The days of a year before one of its months.
pub open spec fn days_before_month(year: int, month: int) -> int
    decreases month,
{
    if month <= 1 {
        0
    } else {
        days_before_month(year, month - 1) + days_in_month(year, month - 1)
    }
}

/// The days before a year, counted from the first of January of the year 1.
pub open spec fn days_before_year(year: int) -> int {
    365 * (year - 1) + (year - 1) / 4 - (year - 1) / 100 + (year - 1) / 400
}

impl LocalTime {
    /// Is it a day of the calendar?
    pub open spec fn on_calendar(self) -> bool {
        self.wf() && self.day <= days_in_month(self.year as int, self.month as int)
    }

    /// The number of the day, the first of January of the year 1 being 1.
    pub open spec fn day_number(self) -> int {
        days_before_year(self.year as int) + days_before_month(self.year as int, self.month as int)
            + self.day
    }

    /// The seconds that the clock on the wall has gone through.
    pub open spec fn wall_seconds(self) -> int {
        self.day_number() * 86_400 + self.hour * 3600 + self.minute * 60 + self.second
    }
}

/// Two local times from one reading of the clock, each with the seconds that its zone is ahead of
/// UTC.
#[derive(Clone, Copy, Debug, PartialEq, Eq, Structural)]
pub struct DayReading {
    pub now: LocalTime,
    pub now_offset: i32,
    pub past: LocalTime,
    pub past_offset: i32,
}

impl DayReading {
    /// Both are times on the calendar, and in UTC one is exactly `days` days before the other.
    pub open spec fn apart(self, days: int) -> bool {
        &&& self.now.on_calendar()
        &&& self.past.on_calendar()
        &&& -86_400 < self.now_offset < 86_400
        &&& -86_400 < self.past_offset < 86_400
        &&& self.past.wall_seconds() - self.past_offset == self.now.wall_seconds()
            - self.now_offset - days * 86_400
    }
}

/// `chrono::Local::now`, and the same less `chrono::Duration::days`, each as the fields that
/// chrono's `Datelike` and `Timelike` give of it, with its offset. What is claimed: the fields are
/// those of a calendar and a clock, an offset is less than a day, and less their offsets the two
/// are the given days apart. Which instant now is, and what the offsets are, depends on the clock
/// and the time zone of the machine; chrono panics where its clock stands before 1970.
#[verifier::external_body]
fn local_days_back(days: u32) -> (r: DayReading)
    requires
        days <= MAX_DAYS_BACK,
    ensures
        r.apart(days as int),
{
    let now = chrono::Local::now();
    let past = now - chrono::Duration::days(days as i64);
    let fields = |t: chrono::DateTime<chrono::Local>| LocalTime {
        year: t.year(), month: t.month(), day: t.day(),
        hour: t.hour(), minute: t.minute(), second: t.second(),
    };
    DayReading {
        now: fields(now),
        now_offset: now.offset().local_minus_utc(),
        past: fields(past),
        past_offset: past.offset().local_minus_utc(),
    }
}

/// The local time now and some days ago.
pub fn local_time_days_ago(days: u32) -> (r: DayReading)
    requires
        days <= MAX_DAYS_BACK,
    ensures
        r.apart(days as int),
{
    local_days_back(days)
}

/// Law: the earlier of two times that are some days apart is on the day that many days before,
/// where the offset is the same; a change of offset by up to a day moves it by one at most, and
/// any change by two.
pub proof fn law_days_back_is_that_many_days(d: DayReading, days: int)
    requires
        d.apart(days),
    ensures
        d.now_offset == d.past_offset ==> d.past.day_number() == d.now.day_number() - days,
        -86_400 <= d.past_offset - d.now_offset <= 86_400 ==> -1 <= d.past.day_number() - (
        d.now.day_number() - days) <= 1,
        -2 <= d.past.day_number() - (d.now.day_number() - days) <= 2,
{
}

proof fn lemma_month_fits(year: int, month: int)
    requires
        1 <= month <= 12,
    ensures
        0 <= days_before_month(year, month),
        days_before_month(year, month) + days_in_month(year, month) <= 365 + (if is_leap(year) {
            1int
        } else {
            0int
        }),
{
    reveal_with_fuel(days_before_month, 13);
}

proof fn lemma_month_order(year: int, a: int, b: int)
    requires
        1 <= a < b,
    ensures
        days_before_month(year, a) + days_in_month(year, a) <= days_before_month(year, b),
    decreases b,
{
    if a + 1 < b {
        lemma_month_order(year, a, b - 1);
    }
}

proof fn lemma_step(n: int, k: int)
    by (nonlinear_arith)
    requires
        k > 1,
    ensures
        n / k - (n - 1) / k == if n % k == 0 {
            1int
        } else {
            0int
        },
{
}

proof fn lemma_next_year(year: int)
    ensures
        days_before_year(year + 1) == days_before_year(year) + 365 + (if is_leap(year) {
            1int
        } else {
            0int
        }),
{
    lemma_step(year, 4);
    lemma_step(year, 100);
    lemma_step(year, 400);
    assert(year % 400 == 0 ==> year % 100 == 0) by {
        if year % 400 == 0 {
            assert(year == 100 * (4 * (year / 400)));
        }
    }
    assert(year % 100 == 0 ==> year % 4 == 0) by {
        if year % 100 == 0 {
            assert(year == 4 * (25 * (year / 100)));
        }
    }
    assert(days_before_year(year + 1) == 365 * year + year / 4 - year / 100 + year / 400);
}

proof fn lemma_year_order(a: int, b: int)
    requires
        a <= b,
    ensures
        days_before_year(a) <= days_before_year(b),
    decreases b - a,
{
    if a < b {
        lemma_year_order(a, b - 1);
        lemma_next_year(b - 1);
    }
}

/// Law: days are numbered in their order.
pub proof fn law_days_are_numbered_in_order(a: LocalTime, b: LocalTime)
    requires
        a.on_calendar(),
        b.on_calendar(),
    ensures
        earlier_day(a, b) <==> a.day_number() < b.day_number(),
{
    if earlier_day(a, b) {
        lemma_earlier_day(a, b);
    } else if earlier_day(b, a) {
        lemma_earlier_day(b, a);
    }
}

proof fn lemma_earlier_day(a: LocalTime, b: LocalTime)
    requires
        a.on_calendar(),
        b.on_calendar(),
        earlier_day(a, b),
    ensures
        a.day_number() < b.day_number(),
{
    let y = a.year as int;
    lemma_month_fits(y, a.month as int);
    lemma_month_fits(b.year as int, b.month as int);
    if a.year < b.year {
        lemma_next_year(y);
        lemma_year_order(y + 1, b.year as int);
    } else if a.month < b.month {
        lemma_month_order(y, a.month as int, b.month as int);
    }
}

/// A year of four digits, with a sign where it is not between 0 and 9999.
pub open spec fn year_text(y: int) -> Seq<char> {
    if 0 <= y <= 9999 {
        zero_padded(y as nat, 4)
    } else if y > 9999 {
        "+"@ + zero_padded(y as nat, 4)
    } else {
        "-"@ + zero_padded((-y) as nat, 4)
    }
}

/// The day as `YYYY-MM-DD`.
pub open spec fn day_text(t: LocalTime) -> Seq<char> {
    year_text(t.year as int) + "-"@ + zero_padded(t.month as nat, 2) + "-"@ + zero_padded(
        t.day as nat,
        2,
    )
}

/// The time of day as `HHMMSS`.
pub open spec fn clock_text(t: LocalTime) -> Seq<char> {
    zero_padded(t.hour as nat, 2) + zero_padded(t.minute as nat, 2) + zero_padded(
        t.second as nat,
        2,
    )
}

/// The day as `YYYY-MM-DD`.
pub fn format_day(t: LocalTime) -> (r: String)
    ensures
        r@ == day_text(t),
{
    let y: i64 = t.year as i64;
    let mut s = if 0 <= y && y <= 9999 {
        zero_padded_text(y as u64, 4)
    } else if y > 9999 {
        let mut s = "+".to_owned();
        s.append(zero_padded_text(y as u64, 4).as_str());
        s
    } else {
        let mut s = "-".to_owned();
        s.append(zero_padded_text((-y) as u64, 4).as_str());
        s
    };
    s.append("-");
    s.append(zero_padded_text(t.month as u64, 2).as_str());
    s.append("-");
    s.append(zero_padded_text(t.day as u64, 2).as_str());
    s
}

/// The time of day as `HHMMSS`.
pub fn format_clock(t: LocalTime) -> (r: String)
    ensures
        r@ == clock_text(t),
{
    let mut s = zero_padded_text(t.hour as u64, 2);
    s.append(zero_padded_text(t.minute as u64, 2).as_str());
    s.append(zero_padded_text(t.second as u64, 2).as_str());
    s
}

/// Is one day before another on the calendar?
pub open spec fn earlier_day(a: LocalTime, b: LocalTime) -> bool {
    ||| a.year < b.year
    ||| a.year == b.year && a.month < b.month
    ||| a.year == b.year && a.month == b.month && a.day < b.day
}

proof fn lemma_two_digits(n: nat)
    requires
        n < 100,
    ensures
        zero_padded(n, 2) == seq![digit_char(n as int / 10), digit_char(n as int % 10)],
{
    reveal_with_fuel(decimal, 3);
    if n < 10 {
        assert(decimal(n) =~= seq![digit_char(n as int)]);
    } else {
        assert(decimal(n) =~= seq![digit_char(n as int / 10), digit_char(n as int % 10)]);
    }
    assert(zero_padded(n, 2) =~= seq![digit_char(n as int / 10), digit_char(n as int % 10)]);
}

proof fn lemma_four_digits(n: nat)
    requires
        n < 10_000,
    ensures
        zero_padded(n, 4) == seq![
            digit_char(n as int / 1000),
            digit_char(n as int / 100 % 10),
            digit_char(n as int / 10 % 10),
            digit_char(n as int % 10),
        ],
{
    reveal_with_fuel(decimal, 5);
    let k = n as int;
    if n < 10 {
        assert(decimal(n) =~= seq![digit_char(k)]);
    } else if n < 100 {
        assert(decimal(n) =~= seq![digit_char(k / 10), digit_char(k % 10)]);
    } else if n < 1000 {
        assert(decimal(n) =~= seq![digit_char(k / 100), digit_char(k / 10 % 10), digit_char(k % 10)]);
    } else {
        assert(decimal(n) =~= seq![
            digit_char(k / 1000),
            digit_char(k / 100 % 10),
            digit_char(k / 10 % 10),
            digit_char(k % 10),
        ]);
    }
    assert(zero_padded(n, 4) =~= seq![
        digit_char(k / 1000),
        digit_char(k / 100 % 10),
        digit_char(k / 10 % 10),
        digit_char(k % 10),
    ]);
}

proof fn lemma_day_chars(t: LocalTime)
    requires
        t.wf(),
        0 <= t.year <= 9999,
    ensures
        day_text(t) == seq![
            digit_char(t.year as int / 1000),
            digit_char(t.year as int / 100 % 10),
            digit_char(t.year as int / 10 % 10),
            digit_char(t.year as int % 10),
            '-',
            digit_char(t.month as int / 10),
            digit_char(t.month as int % 10),
            '-',
            digit_char(t.day as int / 10),
            digit_char(t.day as int % 10),
        ],
{
    reveal_strlit("-");
    lemma_four_digits(t.year as nat);
    lemma_two_digits(t.month as nat);
    lemma_two_digits(t.day as nat);
    assert(day_text(t) =~= seq![
        digit_char(t.year as int / 1000),
        digit_char(t.year as int / 100 % 10),
        digit_char(t.year as int / 10 % 10),
        digit_char(t.year as int % 10),
        '-',
        digit_char(t.month as int / 10),
        digit_char(t.month as int % 10),
        '-',
        digit_char(t.day as int / 10),
        digit_char(t.day as int % 10),
    ]);
}

/// The eight digits of a day, between them the dashes.
spec fn day_digits(d: Seq<int>) -> Seq<char> {
    seq![
        digit_char(d[0]),
        digit_char(d[1]),
        digit_char(d[2]),
        digit_char(d[3]),
        '-',
        digit_char(d[4]),
        digit_char(d[5]),
        '-',
        digit_char(d[6]),
        digit_char(d[7]),
    ]
}

/// Eight digits of a number each.
spec fn eight_digits(d: Seq<int>) -> bool {
    d.len() == 8 && forall|i: int| 0 <= i < 8 ==> 0 <= #[trigger] d[i] <= 9
}

/// Where the `j`th digit of a day stands in its name.
spec fn place(j: int) -> int {
    if j < 4 {
        j
    } else if j < 6 {
        j + 1
    } else {
        j + 2
    }
}

proof fn lemma_first_digit_decides(x: Seq<int>, y: Seq<int>, j: int)
    requires
        eight_digits(x),
        eight_digits(y),
        0 <= j < 8,
        forall|i: int| 0 <= i < j ==> x[i] == y[i],
        x[j] != y[j],
    ensures
        text_before(day_digits(x), day_digits(y)) == (x[j] < y[j]),
{
    let a = day_digits(x);
    let b = day_digits(y);
    let k = place(j);
    assert(x[0] == y[0] || j == 0);
    assert(x[1] == y[1] || j <= 1);
    assert(x[2] == y[2] || j <= 2);
    assert(x[3] == y[3] || j <= 3);
    assert(x[4] == y[4] || j <= 4);
    assert(x[5] == y[5] || j <= 5);
    assert(x[6] == y[6] || j <= 6);
    assert(a[k] == digit_char(x[j]) && b[k] == digit_char(y[j]));
    lemma_text_before_at(a, b, k);
}

spec fn digits_of(t: LocalTime) -> Seq<int> {
    seq![
        t.year as int / 1000,
        t.year as int / 100 % 10,
        t.year as int / 10 % 10,
        t.year as int % 10,
        t.month as int / 10,
        t.month as int % 10,
        t.day as int / 10,
        t.day as int % 10,
    ]
}

proof fn lemma_year_digits(n: int)
    requires
        0 <= n <= 9999,
    ensures
        0 <= n / 1000 <= 9,
        0 <= n / 100 % 10 <= 9,
        0 <= n / 10 % 10 <= 9,
        0 <= n % 10 <= 9,
        n == 1000 * (n / 1000) + 100 * (n / 100 % 10) + 10 * (n / 10 % 10) + n % 10,
{
    let h = n / 100;
    assert(n / 1000 == h / 10);
}

proof fn lemma_digits_of(t: LocalTime)
    requires
        t.wf(),
        0 <= t.year <= 9999,
    ensures
        eight_digits(digits_of(t)),
        day_text(t) == day_digits(digits_of(t)),
        ({
            let d = digits_of(t);
            &&& t.year == 1000 * d[0] + 100 * d[1] + 10 * d[2] + d[3]
            &&& t.month == 10 * d[4] + d[5]
            &&& t.day == 10 * d[6] + d[7]
        }),
{
    lemma_day_chars(t);
    let d = digits_of(t);
    let y = t.year as int;
    lemma_year_digits(y);
    assert(d[0] == y / 1000 && d[1] == y / 100 % 10 && d[2] == y / 10 % 10 && d[3] == y % 10);
    assert(d[4] == t.month as int / 10 && d[5] == t.month as int % 10);
    assert(d[6] == t.day as int / 10 && d[7] == t.day as int % 10);
    assert forall|i: int| 0 <= i < 8 implies 0 <= #[trigger] d[i] <= 9 by {
        assert(i == 0 || i == 1 || i == 2 || i == 3 || i == 4 || i == 5 || i == 6 || i == 7);
    }
    assert(day_text(t) =~= day_digits(d));
}

/// The name of a day of four-digit years: ten characters, digits but for two dashes.
pub proof fn lemma_day_name(t: LocalTime)
    requires
        t.wf(),
        0 <= t.year <= 9999,
    ensures
        day_text(t).len() == 10,
        forall|i: int|
            0 <= i < 10 ==> if i == 4 || i == 7 {
                #[trigger] day_text(t)[i] == '-'
            } else {
                '0' <= day_text(t)[i] <= '9'
            },
{
    lemma_digits_of(t);
    let d = digits_of(t);
    assert(day_text(t) == day_digits(d));
    assert(0 <= d[0] <= 9 && 0 <= d[1] <= 9 && 0 <= d[2] <= 9 && 0 <= d[3] <= 9);
    assert(0 <= d[4] <= 9 && 0 <= d[5] <= 9 && 0 <= d[6] <= 9 && 0 <= d[7] <= 9);
}

/// Law: the names of days sort as the days do, so comparing names is comparing dates.
pub proof fn law_day_names_sort_as_days(a: LocalTime, b: LocalTime)
    requires
        a.wf(),
        b.wf(),
        0 <= a.year <= 9999,
        0 <= b.year <= 9999,
    ensures
        text_before(day_text(a), day_text(b)) <==> earlier_day(a, b),
{
    lemma_digits_of(a);
    lemma_digits_of(b);
    let x = digits_of(a);
    let y = digits_of(b);
    lemma_digit_order(a, b, x, y);
}

proof fn lemma_digit_order(a: LocalTime, b: LocalTime, x: Seq<int>, y: Seq<int>)
    requires
        eight_digits(x),
        eight_digits(y),
        a.year == 1000 * x[0] + 100 * x[1] + 10 * x[2] + x[3],
        a.month == 10 * x[4] + x[5],
        a.day == 10 * x[6] + x[7],
        b.year == 1000 * y[0] + 100 * y[1] + 10 * y[2] + y[3],
        b.month == 10 * y[4] + y[5],
        b.day == 10 * y[6] + y[7],
    ensures
        text_before(day_digits(x), day_digits(y)) <==> earlier_day(a, b),
{
    if x[0] != y[0] {
        lemma_first_digit_decides(x, y, 0);
    } else if x[1] != y[1] {
        lemma_first_digit_decides(x, y, 1);
    } else if x[2] != y[2] {
        lemma_first_digit_decides(x, y, 2);
    } else if x[3] != y[3] {
        lemma_first_digit_decides(x, y, 3);
    } else if x[4] != y[4] {
        lemma_first_digit_decides(x, y, 4);
    } else if x[5] != y[5] {
        lemma_first_digit_decides(x, y, 5);
    } else if x[6] != y[6] {
        lemma_first_digit_decides(x, y, 6);
    } else if x[7] != y[7] {
        lemma_first_digit_decides(x, y, 7);
    } else {
        assert(x =~= y);
        lemma_text_not_before_itself(day_digits(x));
    }
}

/// Law: a reading in coarser units is cut off, not rounded, and what is cut off is less than one
/// unit; with what is left over within the second, whole seconds give the reading back.
pub proof fn law_units_are_cut_off(n: u128, unit: int)
    requires
        unit > 0,
        n < unit * 0x1_0000_0000_0000_0000,
    ensures
        in_units(Some(n), unit) * unit <= n < (in_units(Some(n), unit) + 1) * unit,
        0 <= within_second(Some(n)) < 1_000_000_000,
        unit == 1_000_000_000 ==> in_units(Some(n), unit) * unit + within_second(Some(n)) == n,
        in_units(None, unit) == 0,
        within_second(None) == 0,
{
    let q = n as int / unit;
    assert(q * unit <= n < (q + 1) * unit && 0 <= q < 0x1_0000_0000_0000_0000) by (nonlinear_arith)
        requires
            q == n as int / unit,
            unit > 0,
            0 <= n < unit * 0x1_0000_0000_0000_0000,
    ;
    if unit == 1_000_000_000 {
        assert(q * 1_000_000_000 + n as int % 1_000_000_000 == n);
    }
}

/// Law: a year has 365 days, a leap year 366, counted from one new year to the next and over its
/// months alike.
pub proof fn law_a_year_has_its_days(year: int)
    ensures
        days_before_year(year + 1) - days_before_year(year) == (if year % 4 == 0 && (year % 100 != 0
            || year % 400 == 0) {
            366int
        } else {
            365int
        }),
        days_before_month(year, 13) == days_before_year(year + 1) - days_before_year(year),
        days_before_month(year, 1) == 0,
{
    lemma_next_year(year);
    reveal_with_fuel(days_before_month, 14);
}

/// Law: the day after is numbered one more, within a month, over the end of a month and over the
/// end of a year.
pub proof fn law_the_next_day_is_one_more(a: LocalTime, b: LocalTime)
    requires
        a.on_calendar(),
        b.on_calendar(),
        ({
            ||| b.year == a.year && b.month == a.month && b.day == a.day + 1
            ||| a.day == days_in_month(a.year as int, a.month as int) && b.day == 1 && b.year == a.year
                && b.month == a.month + 1
            ||| a.month == 12 && a.day == 31 && b.year == a.year + 1 && b.month == 1 && b.day == 1
        }),
    ensures
        b.day_number() == a.day_number() + 1,
{
    law_a_year_has_its_days(a.year as int);
    if a.month == 12 {
        assert(days_before_month(a.year as int, 13) == days_before_month(a.year as int, 12)
            + days_in_month(a.year as int, 12));
    }
}

/// Law: a day's name reads back as its year, month and day, in that order.
pub proof fn law_day_names_read_back(t: LocalTime)
    requires
        t.wf(),
        0 <= t.year <= 9999,
    ensures
        day_text(t).len() == 10,
        number_of(day_text(t).subrange(0, 4)) == t.year,
        day_text(t)[4] == '-',
        number_of(day_text(t).subrange(5, 7)) == t.month,
        day_text(t)[7] == '-',
        number_of(day_text(t).subrange(8, 10)) == t.day,
{
    reveal_strlit("-");
    lemma_four_digits(t.year as nat);
    lemma_two_digits(t.month as nat);
    lemma_two_digits(t.day as nat);
    law_padding_keeps_the_number(t.year as nat, 4);
    law_padding_keeps_the_number(t.month as nat, 2);
    law_padding_keeps_the_number(t.day as nat, 2);
    assert(day_text(t).subrange(0, 4) =~= zero_padded(t.year as nat, 4));
    assert(day_text(t).subrange(5, 7) =~= zero_padded(t.month as nat, 2));
    assert(day_text(t).subrange(8, 10) =~= zero_padded(t.day as nat, 2));
}

/// Law: a time of day reads back as its hour, minute and second, two digits each.
pub proof fn law_times_of_day_read_back(t: LocalTime)
    requires
        t.wf(),
    ensures
        clock_text(t).len() == 6,
        number_of(clock_text(t).subrange(0, 2)) == t.hour,
        number_of(clock_text(t).subrange(2, 4)) == t.minute,
        number_of(clock_text(t).subrange(4, 6)) == t.second,
{
    lemma_two_digits(t.hour as nat);
    lemma_two_digits(t.minute as nat);
    lemma_two_digits(t.second as nat);
    law_padding_keeps_the_number(t.hour as nat, 2);
    law_padding_keeps_the_number(t.minute as nat, 2);
    law_padding_keeps_the_number(t.second as nat, 2);
    assert(clock_text(t).subrange(0, 2) =~= zero_padded(t.hour as nat, 2));
    assert(clock_text(t).subrange(2, 4) =~= zero_padded(t.minute as nat, 2));
    assert(clock_text(t).subrange(4, 6) =~= zero_padded(t.second as nat, 2));
}

/// Law: thirty days have April, June, September and November; February has twenty-eight, and one
/// more in a leap year; all the rest have thirty-one.
pub proof fn law_months_have_their_days(year: int)
    ensures
        days_in_month(year, 4) == 30 && days_in_month(year, 6) == 30 && days_in_month(year, 9) == 30
            && days_in_month(year, 11) == 30,
        days_in_month(year, 1) == 31 && days_in_month(year, 3) == 31 && days_in_month(year, 5) == 31
            && days_in_month(year, 7) == 31 && days_in_month(year, 8) == 31 && days_in_month(
            year,
            10,
        ) == 31 && days_in_month(year, 12) == 31,
        days_in_month(year, 2) == (if year % 4 == 0 && (year % 100 != 0 || year % 400 == 0) {
            29int
        } else {
            28int
        }),
{
}

/// Law: days apart are so many times twenty-four hours apart: two readings in the same zone differ
/// in their day and in nothing else of the clock.
pub proof fn law_days_apart_keep_the_time_of_day(d: DayReading, days: int)
    requires
        d.apart(days),
        d.now_offset == d.past_offset,
    ensures
        d.past.hour == d.now.hour && d.past.minute == d.now.minute && d.past.second == d.now.second,
        d.past.day_number() == d.now.day_number() - days,
{
}

} // verus!
