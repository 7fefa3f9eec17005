use vstd::prelude::*;
use crate::text::{digit_char, decimal, padded_decimal, padded_signed, push_char, push_padded, push_padded_signed};

verus! {

/// Gregorian leap-year rule.
pub open spec fn is_leap_year(y: int) -> bool {
    y % 4 == 0 && (y % 100 != 0 || y % 400 == 0)
}

/// Days in year `y`.
pub open spec fn year_len(y: int) -> int {
    if is_leap_year(y) { 366 } else { 365 }
}

/// Walks whole years forward from `y` while `r` still covers them:
/// the year reached and the days left over.
pub open spec fn split_years(y: int, r: int) -> (int, int)
    decreases r,
{
    if r < year_len(y) {
        (y, r)
    } else {
        split_years(y + 1, r - year_len(y))
    }
}

/// Days in month `m` (0-based) of a leap or common year.
pub open spec fn month_len(leap: bool, m: int) -> int {
    if m == 1 {
        if leap { 29 } else { 28 }
    } else if m == 3 || m == 5 || m == 8 || m == 10 {
        30
    } else {
        31
    }
}

/// Walks months forward from month `m` while `r` still covers them: the
/// month reached and the days left over (month 0 when the year runs out).
pub open spec fn split_months(leap: bool, m: int, r: int) -> (int, int)
    decreases 12 - m,
{
    if m >= 12 {
        (0, r)
    } else if r < month_len(leap, m) {
        (m, r)
    } else {
        split_months(leap, m + 1, r - month_len(leap, m))
    }
}

/// The fields of the stamp for `secs` seconds after the Unix epoch (UTC,
/// no leap seconds), as (year, month 1-12, day 1-31, hour, minute, second);
/// the day count is taken as an `i32`.
pub open spec fn stamp_fields(secs: u64) -> (int, int, int, int, int, int) {
    let days = secs / 86400;
    let tod = secs % 86400;
    let ym = split_years(1970, (days as i32) as int);
    let md = split_months(is_leap_year(ym.0), 0, ym.1);
    (ym.0, md.0 + 1, md.1 + 1, (tod / 3600) as int, ((tod % 3600) / 60) as int, (tod % 60) as int)
}

/// The `YYYY-MM-DD-HHMMSS` stamp for `secs` seconds after the Unix epoch.
pub open spec fn timestamp_text(secs: u64) -> Seq<char> {
    let f = stamp_fields(secs);
    padded_signed(f.0, 4) + seq!['-'] + padded_decimal(f.1 as nat, 2) + seq!['-']
        + padded_signed(f.2, 2) + seq!['-'] + padded_decimal(f.3 as nat, 2)
        + padded_decimal(f.4 as nat, 2) + padded_decimal(f.5 as nat, 2)
}

/// Gregorian leap-year test.
pub fn is_leap(y: i32) -> (b: bool)
    ensures
        b == is_leap_year(y as int),
{
    y % 4 == 0 && (y % 100 != 0 || y % 400 == 0)
}

fn month_days(leap: bool, m: usize) -> (d: i32)
    requires
        m < 12,
    ensures
        d == month_len(leap, m as int),
{
    if m == 1 {
        if leap { 29 } else { 28 }
    } else if m == 3 || m == 5 || m == 8 || m == 10 {
        30
    } else {
        31
    }
}

/// Simple timestamp without a date library: YYYY-MM-DD-HHMMSS, for the
/// instant `unix_secs` seconds after the Unix epoch.
pub fn chrono_lite_timestamp(unix_secs: u64) -> (stamp: String)
    ensures
        stamp@ == timestamp_text(unix_secs),
{
    let secs = unix_secs;
    // Convert to rough UTC components (no leap second handling, fine for filenames)
    let days = secs / 86400;
    let time_of_day = secs % 86400;
    let hours = time_of_day / 3600;
    let minutes = (time_of_day % 3600) / 60;
    let seconds = time_of_day % 60;

    // Days since epoch to Y-M-D (simplified Gregorian)
    let mut y: i32 = 1970;
    let mut remaining_days: i32 = days as i32;
    let ghost r0: int = (days as i32) as int;
    loop
        invariant
            1970 <= y,
            (y - 1970) * 365 <= r0 - remaining_days,
            r0 <= i32::MAX,
            r0 == (days as i32) as int,
            split_years(y as int, remaining_days as int) == split_years(1970, r0),
        ensures
            split_years(1970, r0) == (y as int, remaining_days as int),
        decreases remaining_days,
    {
        let year_days: i32 = if is_leap(y) { 366 } else { 365 };
        if remaining_days < year_days {
            break;
        }
        remaining_days = remaining_days - year_days;
        y = y + 1;
    }
    let leap = is_leap(y);
    let mut m: usize = 0;
    let mut i: usize = 0;
    loop
        invariant_except_break
            m == 0,
        invariant
            i <= 12,
            split_months(leap, i as int, remaining_days as int) == split_months(
                is_leap_year(y as int),
                0,
                split_years(1970, r0).1,
            ),
            leap == is_leap_year(y as int),
        ensures
            split_months(leap, 0, split_years(1970, r0).1) == (m as int, remaining_days as int),
            m < 12,
        decreases 12 - i,
    {
        if i >= 12 {
            break;
        }
        let md = month_days(leap, i);
        if remaining_days < md {
            m = i;
            break;
        }
        remaining_days = remaining_days - md;
        i = i + 1;
    }

    let mut stamp = String::new();
    push_padded_signed(&mut stamp, y as i64, 4);
    push_char(&mut stamp, '-');
    push_padded(&mut stamp, (m + 1) as u64, 2);
    push_char(&mut stamp, '-');
    push_padded_signed(&mut stamp, remaining_days as i64 + 1, 2);
    push_char(&mut stamp, '-');
    push_padded(&mut stamp, hours, 2);
    push_padded(&mut stamp, minutes, 2);
    push_padded(&mut stamp, seconds, 2);
    assert(stamp@ =~= timestamp_text(unix_secs));
    stamp
}

/// Days from the start of month `m` to the end of the year.
pub open spec fn rest_of_year(leap: bool, m: int) -> int
    decreases 12 - m,
{
    if m >= 12 {
        0
    } else {
        month_len(leap, m) + rest_of_year(leap, m + 1)
    }
}

proof fn lemma_split_years_valid(y: int, r: int)
    requires
        r >= 0,
    ensures
        split_years(y, r).0 >= y,
        0 <= split_years(y, r).1 < year_len(split_years(y, r).0),
    decreases r,
{
    if r >= year_len(y) {
        lemma_split_years_valid(y + 1, r - year_len(y));
    }
}

proof fn lemma_split_months_valid(leap: bool, m: int, r: int)
    requires
        0 <= m <= 12,
        0 <= r < rest_of_year(leap, m),
    ensures
        0 <= split_months(leap, m, r).0 < 12,
        0 <= split_months(leap, m, r).1 < month_len(leap, split_months(leap, m, r).0),
    decreases 12 - m,
{
    if m < 12 && r >= month_len(leap, m) {
        lemma_split_months_valid(leap, m + 1, r - month_len(leap, m));
    }
}

/// Calendar law of the file-name stamp: for any non-negative day count
/// that fits an `i32`, the date it names is a real one — year 1970 or
/// later, month 1 to 12, and a day within that month's length.
pub proof fn lemma_stamp_date_is_valid(days: int)
    requires
        0 <= days <= i32::MAX,
    ensures
        ({
            let ym = split_years(1970, days);
            let md = split_months(is_leap_year(ym.0), 0, ym.1);
            &&& ym.0 >= 1970
            &&& 1 <= md.0 + 1 <= 12
            &&& 1 <= md.1 + 1 <= month_len(is_leap_year(ym.0), md.0)
        }),
{
    lemma_split_years_valid(1970, days);
    let ym = split_years(1970, days);
    let leap = is_leap_year(ym.0);
    assert(rest_of_year(leap, 0) == year_len(ym.0)) by {
        reveal_with_fuel(rest_of_year, 13);
    }
    lemma_split_months_valid(leap, 0, ym.1);
}

/// Days from 1 January 1970 to 1 January of year `y` (`y` >= 1970).
pub open spec fn days_before_year(y: int) -> int
    decreases y - 1970,
{
    if y <= 1970 {
        0
    } else {
        days_before_year(y - 1) + year_len(y - 1)
    }
}

/// Days in the months before month `m` (0-based) of a leap or common year.
pub open spec fn days_before_month(leap: bool, m: int) -> int
    decreases m,
{
    if m <= 0 {
        0
    } else {
        days_before_month(leap, m - 1) + month_len(leap, m - 1)
    }
}

/// Days from the Unix epoch to the civil date `y`-`m`-`d` (month and day from 1).
pub open spec fn civil_day(y: int, m: int, d: int) -> int {
    days_before_year(y) + days_before_month(is_leap_year(y), m - 1) + d - 1
}

/// `f` names a real instant: a date from 1970 on and a time of day.
pub open spec fn valid_stamp(f: (int, int, int, int, int, int)) -> bool {
    &&& f.0 >= 1970
    &&& 1 <= f.1 <= 12
    &&& 1 <= f.2 <= month_len(is_leap_year(f.0), f.1 - 1)
    &&& 0 <= f.3 < 24
    &&& 0 <= f.4 < 60
    &&& 0 <= f.5 < 60
}

/// Seconds from the Unix epoch to the instant that the fields `f` name.
pub open spec fn stamp_seconds(f: (int, int, int, int, int, int)) -> int {
    civil_day(f.0, f.1, f.2) * 86400 + f.3 * 3600 + f.4 * 60 + f.5
}

/// `a` comes strictly before `b`, field by field from the year down.
pub open spec fn fields_before(a: (int, int, int, int, int, int), b: (int, int, int, int, int, int)) -> bool {
    ||| a.0 < b.0
    ||| a.0 == b.0 && a.1 < b.1
    ||| a.0 == b.0 && a.1 == b.1 && a.2 < b.2
    ||| a.0 == b.0 && a.1 == b.1 && a.2 == b.2 && a.3 < b.3
    ||| a.0 == b.0 && a.1 == b.1 && a.2 == b.2 && a.3 == b.3 && a.4 < b.4
    ||| a.0 == b.0 && a.1 == b.1 && a.2 == b.2 && a.3 == b.3 && a.4 == b.4 && a.5 < b.5
}

proof fn lemma_split_years_sum(y: int, r: int)
    requires
        y >= 1970,
        r >= 0,
    ensures
        days_before_year(split_years(y, r).0) + split_years(y, r).1 == days_before_year(y) + r,
    decreases r,
{
    if r >= year_len(y) {
        lemma_split_years_sum(y + 1, r - year_len(y));
    }
}

proof fn lemma_split_months_sum(leap: bool, m: int, r: int)
    requires
        0 <= m <= 12,
        0 <= r < rest_of_year(leap, m),
    ensures
        days_before_month(leap, split_months(leap, m, r).0) + split_months(leap, m, r).1 == days_before_month(leap, m) + r,
    decreases 12 - m,
{
    if m < 12 && r >= month_len(leap, m) {
        lemma_split_months_sum(leap, m + 1, r - month_len(leap, m));
    }
}

proof fn lemma_days_before_year_monotone(a: int, b: int)
    requires
        1970 <= a <= b,
    ensures
        days_before_year(a) <= days_before_year(b),
    decreases b - a,
{
    if a < b {
        lemma_days_before_year_monotone(a, b - 1);
    }
}

proof fn lemma_days_before_month_monotone(leap: bool, a: int, b: int)
    requires
        0 <= a <= b,
    ensures
        days_before_month(leap, a) <= days_before_month(leap, b),
    decreases b - a,
{
    if a < b {
        lemma_days_before_month_monotone(leap, a, b - 1);
    }
}

/// The day within its year of a valid date is below the year's length.
proof fn lemma_day_in_year(y: int, m: int, d: int)
    requires
        1 <= m <= 12,
        1 <= d <= month_len(is_leap_year(y), m - 1),
    ensures
        days_before_month(is_leap_year(y), m - 1) + d - 1 < days_before_month(is_leap_year(y), m),
        days_before_month(is_leap_year(y), m) <= year_len(y),
{
    let leap = is_leap_year(y);
    lemma_days_before_month_monotone(leap, m, 12);
    assert(days_before_month(leap, 12) == year_len(y)) by {
        reveal_with_fuel(days_before_month, 13);
    }
}

/// Reading the stamp back: for every instant whose day count fits an `i32`,
/// the stamp's fields name a real date and time of day, and that date and
/// time are exactly `secs` seconds after the Unix epoch.
pub proof fn lemma_stamp_reads_back(secs: u64)
    requires
        secs / 86400 <= i32::MAX,
    ensures
        valid_stamp(stamp_fields(secs)),
        stamp_seconds(stamp_fields(secs)) == secs,
{
    let days = secs / 86400;
    let tod = secs % 86400;
    assert((days as i32) as int == days as int);
    lemma_stamp_date_is_valid(days as int);
    lemma_split_years_valid(1970, days as int);
    lemma_split_years_sum(1970, days as int);
    let ym = split_years(1970, days as int);
    let leap = is_leap_year(ym.0);
    assert(rest_of_year(leap, 0) == year_len(ym.0)) by {
        reveal_with_fuel(rest_of_year, 13);
    }
    lemma_split_months_sum(leap, 0, ym.1);
    let md = split_months(leap, 0, ym.1);
    assert(civil_day(ym.0, md.0 + 1, md.1 + 1) == days);
    assert((tod / 3600) * 3600 + ((tod % 3600) / 60) * 60 + tod % 60 == tod);
    assert(days * 86400 + tod == secs);
}

/// Later instants give later stamps: between two valid field tuples, the
/// one that comes first field by field is the earlier instant.
proof fn lemma_fields_before_earlier(a: (int, int, int, int, int, int), b: (int, int, int, int, int, int))
    requires
        valid_stamp(a),
        valid_stamp(b),
        fields_before(a, b),
    ensures
        stamp_seconds(a) < stamp_seconds(b),
{
    lemma_day_in_year(a.0, a.1, a.2);
    lemma_day_in_year(b.0, b.1, b.2);
    let da = civil_day(a.0, a.1, a.2);
    let db = civil_day(b.0, b.1, b.2);
    if a.0 < b.0 {
        lemma_days_before_year_monotone(a.0 + 1, b.0);
        lemma_days_before_month_monotone(is_leap_year(b.0), 0, b.1 - 1);
        assert(days_before_year(a.0 + 1) == days_before_year(a.0) + year_len(a.0));
        assert(da < db);
    } else if a.0 == b.0 && a.1 < b.1 {
        lemma_days_before_month_monotone(is_leap_year(a.0), a.1, b.1 - 1);
        assert(da < db);
    }
    if da < db {
        assert(stamp_seconds(a) < (da + 1) * 86400);
        assert((da + 1) * 86400 <= db * 86400);
    }
}

/// Order law of the file-name stamp: of two instants whose day counts fit
/// an `i32`, the earlier one gets the stamp that comes first, field by field.
pub proof fn lemma_stamps_ordered(s1: u64, s2: u64)
    requires
        s1 < s2,
        s2 / 86400 <= i32::MAX,
    ensures
        fields_before(stamp_fields(s1), stamp_fields(s2)),
{
    lemma_stamp_reads_back(s1);
    lemma_stamp_reads_back(s2);
    let a = stamp_fields(s1);
    let b = stamp_fields(s2);
    if fields_before(b, a) {
        lemma_fields_before_earlier(b, a);
    }
}

/// `n` as exactly `w` decimal digits, most significant first.
pub open spec fn fixed_digits(n: nat, w: nat) -> Seq<char>
    decreases w,
{
    if w == 0 {
        Seq::empty()
    } else {
        fixed_digits(n / 10, (w - 1) as nat).push(digit_char(n % 10))
    }
}

/// `a` comes strictly before `b` in dictionary order.
pub open spec fn text_before(a: Seq<char>, b: Seq<char>) -> bool {
    exists|i: int| 0 <= i < a.len() && i < b.len() && a.take(i) == b.take(i) && #[trigger] a[i] < b[i]
}

proof fn lemma_digit_char_order(a: nat, b: nat)
    requires
        a < b < 10,
    ensures
        digit_char(a) < digit_char(b),
{
}

proof fn lemma_fixed_digits_len(n: nat, w: nat)
    ensures
        fixed_digits(n, w).len() == w,
    decreases w,
{
    if w > 0 {
        lemma_fixed_digits_len(n / 10, (w - 1) as nat);
    }
}

proof fn lemma_fixed_digits_order(a: nat, b: nat, w: nat)
    requires
        a < b < pow10(w),
    ensures
        text_before(fixed_digits(a, w), fixed_digits(b, w)),
    decreases w,
{
    lemma_fixed_digits_len(a, w);
    lemma_fixed_digits_len(b, w);
    if w == 0 {
        assert(false);
    } else {
        let w1 = (w - 1) as nat;
        let pa = fixed_digits(a / 10, w1);
        let pb = fixed_digits(b / 10, w1);
        lemma_fixed_digits_len(a / 10, w1);
        lemma_fixed_digits_len(b / 10, w1);
        let ta = fixed_digits(a, w);
        let tb = fixed_digits(b, w);
        if a / 10 < b / 10 {
            assert(b / 10 < pow10(w1));
            lemma_fixed_digits_order(a / 10, b / 10, w1);
            let i = choose|i: int| 0 <= i < pa.len() && i < pb.len() && pa.take(i) == pb.take(i) && #[trigger] pa[i] < pb[i];
            assert(ta.take(i) =~= pa.take(i));
            assert(tb.take(i) =~= pb.take(i));
            assert(ta[i] == pa[i]);
            assert(tb[i] == pb[i]);
        } else {
            assert(a / 10 == b / 10);
            lemma_digit_char_order(a % 10, b % 10);
            let i = w1 as int;
            assert(ta.take(i) =~= pa);
            assert(tb.take(i) =~= pb);
            assert(ta[i] < tb[i]);
        }
    }
}

/// Powers of ten.
pub open spec fn pow10(w: nat) -> nat
    decreases w,
{
    if w == 0 { 1 } else { 10 * pow10((w - 1) as nat) }
}

proof fn lemma_padded_two(n: nat)
    requires
        n < 100,
    ensures
        padded_decimal(n, 2) == fixed_digits(n, 2),
        padded_signed(n as int, 2) == fixed_digits(n, 2),
{
    reveal_with_fuel(decimal, 2);
    reveal_with_fuel(fixed_digits, 3);
    if n < 10 {
        assert(padded_decimal(n, 2) =~= fixed_digits(n, 2));
    } else {
        assert(padded_decimal(n, 2) =~= fixed_digits(n, 2));
    }
}

proof fn lemma_padded_four(n: nat)
    requires
        n < 10000,
    ensures
        padded_signed(n as int, 4) == fixed_digits(n, 4),
{
    reveal_with_fuel(decimal, 4);
    reveal_with_fuel(fixed_digits, 5);
    if n < 10 {
        assert(padded_decimal(n, 4) =~= fixed_digits(n, 4));
    } else if n < 100 {
        assert(padded_decimal(n, 4) =~= fixed_digits(n, 4));
    } else if n < 1000 {
        assert(padded_decimal(n, 4) =~= fixed_digits(n, 4));
    } else {
        assert(padded_decimal(n, 4) =~= fixed_digits(n, 4));
    }
}

/// Appending to two texts of one length keeps a difference between them.
proof fn lemma_before_then_append(p: Seq<char>, q: Seq<char>, x: Seq<char>, y: Seq<char>)
    requires
        p.len() == q.len(),
        text_before(p, q),
    ensures
        text_before(p + x, q + y),
{
    let i = choose|i: int| 0 <= i < p.len() && i < q.len() && p.take(i) == q.take(i) && #[trigger] p[i] < q[i];
    assert((p + x).take(i) =~= p.take(i));
    assert((q + y).take(i) =~= q.take(i));
    assert((p + x)[i] == p[i]);
    assert((q + y)[i] == q[i]);
}

/// A common beginning keeps the order of what follows it.
proof fn lemma_same_then_before(p: Seq<char>, x: Seq<char>, y: Seq<char>)
    requires
        text_before(x, y),
    ensures
        text_before(p + x, p + y),
{
    let i = choose|i: int| 0 <= i < x.len() && i < y.len() && x.take(i) == y.take(i) && #[trigger] x[i] < y[i];
    let j = p.len() + i;
    assert((p + x).take(j) =~= p + x.take(i));
    assert((p + y).take(j) =~= p + y.take(i));
    assert((p + x)[j] == x[i]);
    assert((p + y)[j] == y[i]);
}

/// The stamp text of valid fields with a four-digit year, built from its
/// fixed-width digit groups.
pub open spec fn stamp_text_of(f: (int, int, int, int, int, int)) -> Seq<char> {
    fixed_digits(f.0 as nat, 4) + seq!['-'] + fixed_digits(f.1 as nat, 2) + seq!['-']
        + fixed_digits(f.2 as nat, 2) + seq!['-'] + fixed_digits(f.3 as nat, 2)
        + fixed_digits(f.4 as nat, 2) + fixed_digits(f.5 as nat, 2)
}

proof fn lemma_text_is_digits(secs: u64)
    requires
        secs / 86400 <= i32::MAX,
        stamp_fields(secs).0 <= 9999,
    ensures
        timestamp_text(secs) == stamp_text_of(stamp_fields(secs)),
        timestamp_text(secs).len() == 17,
{
    lemma_stamp_reads_back(secs);
    let f = stamp_fields(secs);
    assert(month_len(is_leap_year(f.0), f.1 - 1) <= 31);
    lemma_padded_four(f.0 as nat);
    lemma_padded_two(f.1 as nat);
    lemma_padded_two(f.2 as nat);
    lemma_padded_two(f.3 as nat);
    lemma_padded_two(f.4 as nat);
    lemma_padded_two(f.5 as nat);
    lemma_fixed_digits_len(f.0 as nat, 4);
    lemma_fixed_digits_len(f.1 as nat, 2);
    lemma_fixed_digits_len(f.2 as nat, 2);
    lemma_fixed_digits_len(f.3 as nat, 2);
    lemma_fixed_digits_len(f.4 as nat, 2);
    lemma_fixed_digits_len(f.5 as nat, 2);
}

/// First instant of year 10000: the stamps up to here have four-digit years.
pub const STAMP_SECS_LIMIT: u64 = 253402300800;

/// Leap years before year `y` counted from year 1 (Gregorian rule).
pub open spec fn leaps_before(y: int) -> int {
    (y - 1) / 4 - (y - 1) / 100 + (y - 1) / 400
}

proof fn lemma_leap_step(x: int)
    requires
        x >= 1,
    ensures
        leaps_before(x + 1) - leaps_before(x) == (if is_leap_year(x) { 1int } else { 0int }),
{
    assert(x / 4 - (x - 1) / 4 == (if x % 4 == 0 { 1int } else { 0int }));
    assert(x / 100 - (x - 1) / 100 == (if x % 100 == 0 { 1int } else { 0int }));
    assert(x / 400 - (x - 1) / 400 == (if x % 400 == 0 { 1int } else { 0int }));
    assert(x % 400 == 0 ==> x % 100 == 0 && x % 4 == 0);
    assert(x % 100 == 0 ==> x % 4 == 0);
}

/// Days before year `y` in closed form: 365 a year plus the leap days.
proof fn lemma_days_before_year_closed(y: int)
    requires
        y >= 1970,
    ensures
        days_before_year(y) == 365 * (y - 1970) + leaps_before(y) - leaps_before(1970),
    decreases y - 1970,
{
    if y > 1970 {
        lemma_days_before_year_closed(y - 1);
        lemma_leap_step(y - 1);
    }
}

/// Instants before `STAMP_SECS_LIMIT` fall in years up to 9999.
proof fn lemma_year_below_ten_thousand(secs: u64)
    requires
        secs < STAMP_SECS_LIMIT,
    ensures
        secs / 86400 <= i32::MAX,
        stamp_fields(secs).0 <= 9999,
{
    let days = secs / 86400;
    assert(days < 2932897);
    assert((days as i32) as int == days as int);
    lemma_split_years_valid(1970, days as int);
    lemma_split_years_sum(1970, days as int);
    let y = split_years(1970, days as int).0;
    if y >= 10000 {
        lemma_days_before_year_monotone(10000, y);
        lemma_days_before_year_closed(10000);
        assert(leaps_before(10000) == 2424);
        assert(leaps_before(1970) == 477);
        assert(days_before_year(10000) == 2932897);
    }
}

proof fn lemma_fixed_digits_are_digits(n: nat, w: nat)
    ensures
        forall|i: int| 0 <= i < w ==> '0' <= #[trigger] fixed_digits(n, w)[i] <= '9',
    decreases w,
{
    lemma_fixed_digits_len(n, w);
    if w > 0 {
        lemma_fixed_digits_are_digits(n / 10, (w - 1) as nat);
        lemma_fixed_digits_len(n / 10, (w - 1) as nat);
        let d = digit_char(n % 10);
        assert('0' <= d <= '9');
        assert forall|i: int| 0 <= i < w implies '0' <= #[trigger] fixed_digits(n, w)[i] <= '9' by {
            if i < w - 1 {
                assert(fixed_digits(n, w)[i] == fixed_digits(n / 10, (w - 1) as nat)[i]);
            }
        }
    }
}

/// Shape of the file-name stamp: for every instant before year 10000 the
/// stamp is 17 characters, `DDDD-DD-DD-DDDDDD`, and reads as the fields
/// year, month, day, hour, minute and second in fixed-width decimal.
pub proof fn lemma_stamp_shape(secs: u64)
    requires
        secs < STAMP_SECS_LIMIT,
    ensures
        stamp_fields(secs).0 <= 9999,
        timestamp_text(secs) == stamp_text_of(stamp_fields(secs)),
        timestamp_text(secs).len() == 17,
        forall|i: int| 0 <= i < 17 && i != 4 && i != 7 && i != 10 ==> '0' <= #[trigger] timestamp_text(secs)[i] <= '9',
        timestamp_text(secs)[4] == '-' && timestamp_text(secs)[7] == '-' && timestamp_text(secs)[10] == '-',
{
    lemma_year_below_ten_thousand(secs);
    lemma_text_is_digits(secs);
    let f = stamp_fields(secs);
    lemma_fixed_digits_are_digits(f.0 as nat, 4);
    lemma_fixed_digits_are_digits(f.1 as nat, 2);
    lemma_fixed_digits_are_digits(f.2 as nat, 2);
    lemma_fixed_digits_are_digits(f.3 as nat, 2);
    lemma_fixed_digits_are_digits(f.4 as nat, 2);
    lemma_fixed_digits_are_digits(f.5 as nat, 2);
    lemma_fixed_digits_len(f.0 as nat, 4);
    lemma_fixed_digits_len(f.1 as nat, 2);
    lemma_fixed_digits_len(f.2 as nat, 2);
    lemma_fixed_digits_len(f.3 as nat, 2);
    lemma_fixed_digits_len(f.4 as nat, 2);
    lemma_fixed_digits_len(f.5 as nat, 2);
    let t = timestamp_text(secs);
    let parts = seq![
        fixed_digits(f.0 as nat, 4), seq!['-'], fixed_digits(f.1 as nat, 2), seq!['-'],
        fixed_digits(f.2 as nat, 2), seq!['-'], fixed_digits(f.3 as nat, 2),
        fixed_digits(f.4 as nat, 2), fixed_digits(f.5 as nat, 2)
    ];
    assert(t =~= parts[0] + parts[1] + parts[2] + parts[3] + parts[4] + parts[5] + parts[6] + parts[7] + parts[8]);
    assert forall|i: int| 0 <= i < 17 && i != 4 && i != 7 && i != 10 implies '0' <= #[trigger] t[i] <= '9' by {
        if i < 4 {
            assert(t[i] == fixed_digits(f.0 as nat, 4)[i]);
        } else if i < 7 {
            assert(t[i] == fixed_digits(f.1 as nat, 2)[i - 5]);
        } else if i < 10 {
            assert(t[i] == fixed_digits(f.2 as nat, 2)[i - 8]);
        } else if i < 13 {
            assert(t[i] == fixed_digits(f.3 as nat, 2)[i - 11]);
        } else if i < 15 {
            assert(t[i] == fixed_digits(f.4 as nat, 2)[i - 13]);
        } else {
            assert(t[i] == fixed_digits(f.5 as nat, 2)[i - 15]);
        }
    }
}

/// Order law of the file-name stamp as text: of two instants before year
/// 10000, the earlier one's stamp (always 17 characters) sorts first in
/// dictionary order. (From year 10000 on the year takes five digits and the
/// order no longer holds.)
pub proof fn lemma_stamp_text_ordered(s1: u64, s2: u64)
    requires
        s1 < s2 < STAMP_SECS_LIMIT,
    ensures
        timestamp_text(s1).len() == 17,
        timestamp_text(s2).len() == 17,
        text_before(timestamp_text(s1), timestamp_text(s2)),
{
    assert(pow10(2) == 100 && pow10(4) == 10000) by {
        reveal_with_fuel(pow10, 5);
    }
    lemma_year_below_ten_thousand(s1);
    lemma_year_below_ten_thousand(s2);
    lemma_stamps_ordered(s1, s2);
    let a = stamp_fields(s1);
    let b = stamp_fields(s2);
    lemma_text_is_digits(s1);
    lemma_text_is_digits(s2);
    lemma_stamp_reads_back(s1);
    lemma_stamp_reads_back(s2);
    assert(month_len(is_leap_year(a.0), a.1 - 1) <= 31);
    assert(month_len(is_leap_year(b.0), b.1 - 1) <= 31);
    let (ya, ma, da, ha, mia, sa) = (fixed_digits(a.0 as nat, 4), fixed_digits(a.1 as nat, 2), fixed_digits(a.2 as nat, 2), fixed_digits(a.3 as nat, 2), fixed_digits(a.4 as nat, 2), fixed_digits(a.5 as nat, 2));
    let (yb, mb, db, hb, mib, sb) = (fixed_digits(b.0 as nat, 4), fixed_digits(b.1 as nat, 2), fixed_digits(b.2 as nat, 2), fixed_digits(b.3 as nat, 2), fixed_digits(b.4 as nat, 2), fixed_digits(b.5 as nat, 2));
    lemma_fixed_digits_len(a.0 as nat, 4);
    lemma_fixed_digits_len(b.0 as nat, 4);
    lemma_fixed_digits_len(a.1 as nat, 2);
    lemma_fixed_digits_len(b.1 as nat, 2);
    lemma_fixed_digits_len(a.2 as nat, 2);
    lemma_fixed_digits_len(b.2 as nat, 2);
    lemma_fixed_digits_len(a.3 as nat, 2);
    lemma_fixed_digits_len(b.3 as nat, 2);
    lemma_fixed_digits_len(a.4 as nat, 2);
    lemma_fixed_digits_len(b.4 as nat, 2);
    let d = seq!['-'];
    let p1a = ya + d;
    let p1b = yb + d;
    let p2a = p1a + ma + d;
    let p2b = p1b + mb + d;
    let p3a = p2a + da + d;
    let p3b = p2b + db + d;
    let p4a = p3a + ha;
    let p4b = p3b + hb;
    let p5a = p4a + mia;
    let p5b = p4b + mib;
    assert(timestamp_text(s1) == p5a + sa);
    assert(timestamp_text(s2) == p5b + sb);
    if a.0 < b.0 {
        lemma_fixed_digits_order(a.0 as nat, b.0 as nat, 4);
        lemma_before_then_append(ya, yb, d, d);
        lemma_before_then_append(p1a, p1b, ma, mb);
        lemma_before_then_append(p1a + ma, p1b + mb, d, d);
        lemma_before_then_append(p2a, p2b, da, db);
        lemma_before_then_append(p2a + da, p2b + db, d, d);
        lemma_before_then_append(p3a, p3b, ha, hb);
        lemma_before_then_append(p4a, p4b, mia, mib);
        lemma_before_then_append(p5a, p5b, sa, sb);
    } else if a.1 < b.1 {
        lemma_fixed_digits_order(a.1 as nat, b.1 as nat, 2);
        lemma_same_then_before(p1a, ma, mb);
        lemma_before_then_append(p1a + ma, p1b + mb, d, d);
        lemma_before_then_append(p2a, p2b, da, db);
        lemma_before_then_append(p2a + da, p2b + db, d, d);
        lemma_before_then_append(p3a, p3b, ha, hb);
        lemma_before_then_append(p4a, p4b, mia, mib);
        lemma_before_then_append(p5a, p5b, sa, sb);
    } else if a.2 < b.2 {
        lemma_fixed_digits_order(a.2 as nat, b.2 as nat, 2);
        lemma_same_then_before(p2a, da, db);
        lemma_before_then_append(p2a + da, p2b + db, d, d);
        lemma_before_then_append(p3a, p3b, ha, hb);
        lemma_before_then_append(p4a, p4b, mia, mib);
        lemma_before_then_append(p5a, p5b, sa, sb);
    } else if a.3 < b.3 {
        lemma_fixed_digits_order(a.3 as nat, b.3 as nat, 2);
        lemma_same_then_before(p3a, ha, hb);
        lemma_before_then_append(p4a, p4b, mia, mib);
        lemma_before_then_append(p5a, p5b, sa, sb);
    } else if a.4 < b.4 {
        lemma_fixed_digits_order(a.4 as nat, b.4 as nat, 2);
        lemma_same_then_before(p4a, mia, mib);
        lemma_before_then_append(p5a, p5b, sa, sb);
    } else {
        lemma_fixed_digits_order(a.5 as nat, b.5 as nat, 2);
        lemma_same_then_before(p5a, sa, sb);
    }
}

} // verus!
