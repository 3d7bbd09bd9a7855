//! Calendar arithmetic for timestamps (proleptic Gregorian, UTC).
use vstd::prelude::*;
use vstd::string::*;
use crate::clock::clock_secs_micros;
use crate::text::{lemma_padded_order, lemma_text_lt_middle, padded, pow10, text_lt, write_padded};

verus! {

pub open spec fn is_leap(y: int) -> bool {
    y % 4 == 0 && (y % 100 != 0 || y % 400 == 0)
}

/// The number of days in month `m` (1..12) of year `y`.
pub open spec fn month_length(y: int, m: int) -> int {
    if m == 2 {
        if is_leap(y) { 29 } else { 28 }
    } else if m == 4 || m == 6 || m == 9 || m == 11 {
        30
    } else {
        31
    }
}

/// Whether `(y, m, d)` is a date of the calendar.
pub open spec fn valid_date(y: int, m: int, d: int) -> bool {
    1 <= m <= 12 && 1 <= d <= month_length(y, m)
}

/// Days from 1970-01-01 to the date `(y, m, d)`: years are counted from
/// March 1st so that the leap day ends a year, and a 400-year era has 146097 days.
pub open spec fn days_from_civil(y: int, m: int, d: int) -> int {
    let y2 = if m <= 2 { y - 1 } else { y };
    let era = y2 / 400;
    let yoe = y2 - era * 400;
    let mp = if m > 2 { m - 3 } else { m + 9 };
    let doy = (153 * mp + 2) / 5 + d - 1;
    let doe = yoe * 365 + yoe / 4 - yoe / 100 + doy;
    era * 146097 + doe - 719468
}

/// The year of an era (0..399) that day `doe` (0..146096) of the era falls in,
/// years starting on March 1st.
pub open spec fn year_of_era(doe: int) -> int {
    (doe - doe / 1460 + doe / 36524 - doe / 146096) / 365
}

/// The day (0..365) of that year.
pub open spec fn day_of_year(doe: int) -> int {
    let yoe = year_of_era(doe);
    doe - (365 * yoe + yoe / 4 - yoe / 100)
}

#[verifier::spinoff_prover]
proof fn lemma_era_split(doe: int)
    requires
        0 <= doe <= 146096,
    ensures
        0 <= year_of_era(doe) <= 399,
        0 <= day_of_year(doe) <= 365,
        day_of_year(doe) == 365 ==> is_leap(year_of_era(doe) + 1),
{
    let a = doe / 1460;
    let b = doe / 36524;
    let c = doe / 146096;
    assert(1460 * a <= doe < 1460 * a + 1460) by (nonlinear_arith) requires a == doe / 1460, doe >= 0;
    assert(36524 * b <= doe < 36524 * b + 36524) by (nonlinear_arith) requires b == doe / 36524, doe >= 0;
    assert(146096 * c <= doe < 146096 * c + 146096) by (nonlinear_arith) requires c == doe / 146096, doe >= 0;
    let e = doe - a + b - c;
    let yoe = e / 365;
    assert(365 * yoe <= e < 365 * yoe + 365) by (nonlinear_arith) requires yoe == e / 365;
    let y4 = yoe / 4;
    let y100 = yoe / 100;
    assert(4 * y4 <= yoe < 4 * y4 + 4) by (nonlinear_arith) requires y4 == yoe / 4;
    assert(100 * y100 <= yoe < 100 * y100 + 100) by (nonlinear_arith) requires y100 == yoe / 100;
    lemma_era_bounds(doe, a, b, c, yoe, y4, y100);
    if doe - (365 * yoe + y4 - y100) == 365 {
        lemma_era_leap(doe, a, b, c, yoe, y4, y100);
    }
}

#[verifier::spinoff_prover]
proof fn lemma_era_bounds(doe: int, a: int, b: int, c: int, yoe: int, y4: int, y100: int)
    requires
        0 <= doe <= 146096,
        1460 * a <= doe < 1460 * a + 1460,
        36524 * b <= doe < 36524 * b + 36524,
        146096 * c <= doe < 146096 * c + 146096,
        365 * yoe <= doe - a + b - c < 365 * yoe + 365,
        4 * y4 <= yoe < 4 * y4 + 4,
        100 * y100 <= yoe < 100 * y100 + 100,
    ensures
        0 <= yoe <= 399,
        0 <= doe - (365 * yoe + y4 - y100) <= 365,
{
}

#[verifier::spinoff_prover]
proof fn lemma_era_leap(doe: int, a: int, b: int, c: int, yoe: int, y4: int, y100: int)
    requires
        0 <= doe <= 146096,
        1460 * a <= doe < 1460 * a + 1460,
        36524 * b <= doe < 36524 * b + 36524,
        146096 * c <= doe < 146096 * c + 146096,
        365 * yoe <= doe - a + b - c < 365 * yoe + 365,
        4 * y4 <= yoe < 4 * y4 + 4,
        100 * y100 <= yoe < 100 * y100 + 100,
        0 <= yoe <= 399,
        doe - (365 * yoe + y4 - y100) == 365,
    ensures
        is_leap(yoe + 1),
{
    let n = yoe + 1;
    assert(n % 4 == 0 && (n % 100 != 0 || n % 400 == 0)) by (nonlinear_arith)
        requires
            1460 * a <= doe < 1460 * a + 1460,
            36524 * b <= doe < 36524 * b + 36524,
            146096 * c <= doe < 146096 * c + 146096,
            365 * yoe <= doe - a + b - c < 365 * yoe + 365,
            4 * y4 <= yoe < 4 * y4 + 4,
            100 * y100 <= yoe < 100 * y100 + 100,
            doe - (365 * yoe + y4 - y100) == 365,
            0 <= yoe <= 399,
            0 <= doe <= 146096,
            n == yoe + 1;
}

proof fn lemma_leap_shift(n: int, k: int)
    ensures
        is_leap(n + 400 * k) == is_leap(n),
{
    assert((n + 400 * k) % 4 == n % 4 && (n + 400 * k) % 100 == n % 100 && (n + 400 * k) % 400 == n % 400)
        by (nonlinear_arith);
}

/// Month and day of day `doy` (0..365) of a year that starts on March 1st:
/// `mp` counts months from March (0..11).
proof fn lemma_month_of_day(doy: int)
    requires
        0 <= doy <= 365,
    ensures
        ({
            let mp = (5 * doy + 2) / 153;
            let d = doy - (153 * mp + 2) / 5 + 1;
            &&& 0 <= mp <= 11
            &&& 1 <= d
            &&& mp != 11 ==> d <= month_length(0, if mp < 10 { mp + 3 } else { mp - 9 })
            &&& mp == 11 ==> d == doy - 336
        }),
{
    let mp = (5 * doy + 2) / 153;
    assert(153 * mp <= 5 * doy + 2 < 153 * mp + 153) by (nonlinear_arith) requires mp == (5 * doy + 2) / 153;
    assert(0 <= mp <= 11);
    let q = (153 * mp + 2) / 5;
    assert(5 * q <= 153 * mp + 2 < 5 * q + 5) by (nonlinear_arith) requires q == (153 * mp + 2) / 5;
    if mp == 0 { assert(q == 0); } else if mp == 1 { assert(q == 31); } else if mp == 2 { assert(q == 61); }
    else if mp == 3 { assert(q == 92); } else if mp == 4 { assert(q == 122); } else if mp == 5 { assert(q == 153); }
    else if mp == 6 { assert(q == 184); } else if mp == 7 { assert(q == 214); } else if mp == 8 { assert(q == 245); }
    else if mp == 9 { assert(q == 275); } else if mp == 10 { assert(q == 306); } else { assert(q == 337); }
}

/// The date `zz - 719468` days after 1970-01-01, computed from the day
/// `zz` counted from 0000-03-01.
pub open spec fn civil_of(zz: int) -> (int, int, int) {
    let era = zz / 146097;
    let doe = zz - era * 146097;
    let yoe = year_of_era(doe);
    let doy = day_of_year(doe);
    let mp = (5 * doy + 2) / 153;
    let d = doy - (153 * mp + 2) / 5 + 1;
    let m = if mp < 10 { mp + 3 } else { mp - 9 };
    let y = yoe + era * 400;
    (if m <= 2 { y + 1 } else { y }, m, d)
}

proof fn lemma_civil_of(zz: int)
    ensures
        valid_date(civil_of(zz).0, civil_of(zz).1, civil_of(zz).2),
        days_from_civil(civil_of(zz).0, civil_of(zz).1, civil_of(zz).2) == zz - 719468,
{
    let era = zz / 146097;
    let doe = zz - era * 146097;
    assert(0 <= doe < 146097) by (nonlinear_arith) requires era == zz / 146097, doe == zz - era * 146097;
    lemma_era_split(doe);
    let yoe = year_of_era(doe);
    let doy = day_of_year(doe);
    lemma_month_of_day(doy);
    let mp = (5 * doy + 2) / 153;
    let y = yoe + era * 400;
    let (yy, m, d) = civil_of(zz);
    let y2 = if m <= 2 { yy - 1 } else { yy };
    assert(y2 == y);
    assert(y2 / 400 == era) by (nonlinear_arith) requires y2 == yoe + era * 400, 0 <= yoe <= 399;
    assert(y2 - era * 400 == yoe);
    if mp == 11 {
        lemma_leap_shift(yoe + 1, era);
        assert(yy == yoe + 1 + 400 * era);
    }
}

/// The date `z` days after 1970-01-01 (Howard Hinnant's `civil_from_days`).
pub fn civil_from_days(z: i64) -> (r: (i64, u32, u32))
    requires
        z <= i64::MAX - 719468,
    ensures
        valid_date(r.0 as int, r.1 as int, r.2 as int),
        days_from_civil(r.0 as int, r.1 as int, r.2 as int) == z,
        (r.0 as int, r.1 as int, r.2 as int) == civil_of(z as int + 719468),
{
    let z = z + 719468;
    let ghost zz = z as int;
    let era: i64 = if z >= 0 { z / 146097 } else { -((146096 - z) / 146097) };
    proof {
        if z >= 0 {
            assert(era == zz / 146097);
        } else {
            let q = (146096 - zz) / 146097;
            assert(-q == zz / 146097) by (nonlinear_arith) requires q == (146096 - zz) / 146097, zz < 0;
        }
        assert(0 <= zz - era * 146097 < 146097) by (nonlinear_arith) requires era == zz / 146097;
        lemma_civil_of(zz);
    }
    let doe: u64 = (z - era * 146097) as u64;
    let yoe: u64 = (doe - doe / 1460 + doe / 36524 - doe / 146096) / 365;
    proof { lemma_era_split(doe as int); }
    let y: i64 = yoe as i64 + era * 400;
    let doy: u64 = doe - (365 * yoe + yoe / 4 - yoe / 100);
    proof { lemma_month_of_day(doy as int); }
    let mp: u64 = (5 * doy + 2) / 153;
    let d: u32 = (doy - (153 * mp + 2) / 5 + 1) as u32;
    let m: u32 = if mp < 10 { (mp + 3) as u32 } else { (mp - 9) as u32 };
    let year: i64 = if m <= 2 { y + 1 } else { y };
    assert((year as int, m as int, d as int) == civil_of(zz));
    (year, m, d)
}

/// Dates in calendar order: by year, then month, then day.
pub open spec fn date_lt(a: (int, int, int), b: (int, int, int)) -> bool {
    a.0 < b.0 || (a.0 == b.0 && (a.1 < b.1 || (a.1 == b.1 && a.2 < b.2)))
}

/// Days from 0000-03-01 to March 1st of year `y2`.
spec fn year_start(y2: int) -> int {
    365 * y2 + y2 / 4 - y2 / 100 + y2 / 400
}

/// Days from March 1st to the first of month `mp` (counted from March).
spec fn month_start(mp: int) -> int {
    (153 * mp + 2) / 5
}

proof fn lemma_month_starts(mp: int)
    requires
        0 <= mp <= 11,
    ensures
        month_start(mp) == if mp == 0 { 0int } else if mp == 1 { 31 } else if mp == 2 { 61 } else if mp == 3 { 92 }
            else if mp == 4 { 122 } else if mp == 5 { 153 } else if mp == 6 { 184 } else if mp == 7 { 214 }
            else if mp == 8 { 245 } else if mp == 9 { 275 } else if mp == 10 { 306 } else { 337 },
{
}

proof fn lemma_days_split(y: int, m: int, d: int)
    requires
        valid_date(y, m, d),
    ensures
        ({
            let y2 = if m <= 2 { y - 1 } else { y };
            let mp = if m > 2 { m - 3 } else { m + 9 };
            days_from_civil(y, m, d) == year_start(y2) + month_start(mp) + d - 1 - 719468
        }),
{
    let y2 = if m <= 2 { y - 1 } else { y };
    let era = y2 / 400;
    let yoe = y2 - era * 400;
    assert(0 <= yoe < 400 && y2 / 4 == 100 * era + yoe / 4 && y2 / 100 == 4 * era + yoe / 100 && y2 / 400 == era)
        by (nonlinear_arith)
        requires
            era == y2 / 400,
            yoe == y2 - era * 400;
}

proof fn lemma_year_length(y2: int)
    ensures
        year_start(y2 + 1) - year_start(y2) == 365 + (if is_leap(y2 + 1) { 1int } else { 0 }),
{
    let n = y2 + 1;
    assert((n / 4 - y2 / 4 == if n % 4 == 0 { 1int } else { 0 })
        && (n / 100 - y2 / 100 == if n % 100 == 0 { 1int } else { 0 })
        && (n / 400 - y2 / 400 == if n % 400 == 0 { 1int } else { 0 })) by (nonlinear_arith)
        requires
            n == y2 + 1;
    assert(n % 100 == 0 ==> n % 4 == 0) by (nonlinear_arith) requires n == y2 + 1;
    assert(n % 400 == 0 ==> n % 100 == 0) by (nonlinear_arith) requires n == y2 + 1;
}

proof fn lemma_year_start_grows(a: int, b: int)
    requires
        a < b,
    ensures
        year_start(a + 1) <= year_start(b),
    decreases b - a,
{
    if a + 1 < b {
        lemma_year_start_grows(a + 1, b);
        lemma_year_length(a + 1);
    }
}

proof fn lemma_day_within_year(y: int, m: int, d: int)
    requires
        valid_date(y, m, d),
    ensures
        ({
            let y2 = if m <= 2 { y - 1 } else { y };
            let mp = if m > 2 { m - 3 } else { m + 9 };
            &&& 0 <= month_start(mp) + d - 1
            &&& month_start(mp) + d - 1 < year_start(y2 + 1) - year_start(y2)
        }),
{
    let y2 = if m <= 2 { y - 1 } else { y };
    let mp = if m > 2 { m - 3 } else { m + 9 };
    lemma_month_starts(mp);
    lemma_year_length(y2);
}

/// Later dates have more days: `days_from_civil` is strictly increasing in
/// calendar order.
pub proof fn lemma_days_increase(a: (int, int, int), b: (int, int, int))
    requires
        valid_date(a.0, a.1, a.2),
        valid_date(b.0, b.1, b.2),
        date_lt(a, b),
    ensures
        days_from_civil(a.0, a.1, a.2) < days_from_civil(b.0, b.1, b.2),
{
    lemma_days_split(a.0, a.1, a.2);
    lemma_days_split(b.0, b.1, b.2);
    lemma_day_within_year(a.0, a.1, a.2);
    lemma_day_within_year(b.0, b.1, b.2);
    let ya = if a.1 <= 2 { a.0 - 1 } else { a.0 };
    let yb = if b.1 <= 2 { b.0 - 1 } else { b.0 };
    let ma = if a.1 > 2 { a.1 - 3 } else { a.1 + 9 };
    let mb = if b.1 > 2 { b.1 - 3 } else { b.1 + 9 };
    assert(12 * ya + ma == 12 * a.0 + a.1 - 3);
    assert(12 * yb + mb == 12 * b.0 + b.1 - 3);
    if ya < yb {
        lemma_year_start_grows(ya, yb);
    } else if ya == yb && ma < mb {
        lemma_month_starts(ma);
        lemma_month_starts(ma + 1);
        lemma_month_starts(mb);
        assert(month_start(ma) + a.2 - 1 < month_start(ma + 1)) by {
            assert(a.2 <= month_length(a.0, a.1));
        }
        assert(month_start(ma + 1) <= month_start(mb));
    } else {
        assert(ya == yb && ma == mb);
    }
}

/// Later days give later dates: the date of a day count grows with it.
pub proof fn lemma_civil_increases(z1: int, z2: int)
    requires
        z1 < z2,
    ensures
        date_lt(civil_of(z1), civil_of(z2)),
{
    lemma_civil_of(z1);
    lemma_civil_of(z2);
    let a = civil_of(z1);
    let b = civil_of(z2);
    if !date_lt(a, b) {
        if a == b {
        } else {
            assert(date_lt(b, a));
            lemma_days_increase(b, a);
        }
    }
}

/// The ISO 8601 text `YYYY-MM-DDTHH:MM:SS.ffffff+00:00` of the instant
/// `secs` seconds and `micros` microseconds after the Unix epoch.
pub open spec fn iso_timestamp(secs: nat, micros: nat) -> Seq<char> {
    let date = civil_of((secs / 86400 + 719468) as int);
    let rem = secs % 86400;
    padded(date.0 as nat, 4) + "-"@ + padded(date.1 as nat, 2) + "-"@ + padded(date.2 as nat, 2) + "T"@
        + padded(rem / 3600, 2) + ":"@ + padded((rem % 3600) / 60, 2) + ":"@ + padded(rem % 60, 2) + "."@
        + padded(micros, 6) + "+00:00"@
}

/// The date of `civil_of` is the calendar date that many days after 1970-01-01.
pub proof fn lemma_iso_date(secs: nat)
    ensures
        ({
            let date = civil_of((secs / 86400 + 719468) as int);
            &&& valid_date(date.0, date.1, date.2)
            &&& days_from_civil(date.0, date.1, date.2) == secs / 86400
            &&& date.0 >= 1600
        }),
{
    lemma_civil_of((secs / 86400 + 719468) as int);
    let date = civil_of((secs / 86400 + 719468) as int);
    let zz = (secs / 86400 + 719468) as int;
    let era = zz / 146097;
    assert(era >= 4) by (nonlinear_arith) requires era == zz / 146097, zz >= 719468;
    assert(0 <= year_of_era(zz - era * 146097)) by {
        assert(0 <= zz - era * 146097 < 146097) by (nonlinear_arith) requires era == zz / 146097;
        lemma_era_split(zz - era * 146097);
    }
}

/// Formats an instant as `YYYY-MM-DDTHH:MM:SS.ffffff+00:00`.
pub fn format_iso(secs: u64, micros: u32) -> (r: String)
    ensures
        r@ == iso_timestamp(secs as nat, micros as nat),
{
    let days: i64 = (secs / 86400) as i64;
    let (y, m, d) = civil_from_days(days);
    proof { lemma_iso_date(secs as nat); }
    let rem = secs % 86400;
    let mut s = String::new();
    write_padded(&mut s, y as u64, 4);
    s.append("-");
    write_padded(&mut s, m as u64, 2);
    s.append("-");
    write_padded(&mut s, d as u64, 2);
    s.append("T");
    write_padded(&mut s, rem / 3600, 2);
    s.append(":");
    write_padded(&mut s, (rem % 3600) / 60, 2);
    s.append(":");
    write_padded(&mut s, rem % 60, 2);
    s.append(".");
    write_padded(&mut s, micros as u64, 6);
    s.append("+00:00");
    s
}

/// The current UTC time as `YYYY-MM-DDTHH:MM:SS.ffffff+00:00`.
pub fn utc_now_iso() -> (r: String)
    ensures
        exists|secs: nat, micros: nat| micros < 1000000 && r@ == iso_timestamp(secs, micros),
{
    let (secs, micros) = clock_secs_micros();
    format_iso(secs, micros)
}

proof fn lemma_assoc(x: Seq<char>, y: Seq<char>, z: Seq<char>)
    ensures
        x + y + z == x + (y + z),
{
    assert(x + y + z =~= x + (y + z));
}

/// The ISO text of its fields: year, month, day, hour, minute, second,
/// microsecond.
pub open spec fn iso_fields(f: (nat, nat, nat, nat, nat, nat, nat)) -> Seq<char> {
    padded(f.0, 4) + "-"@ + padded(f.1, 2) + "-"@ + padded(f.2, 2) + "T"@ + padded(f.3, 2) + ":"@ + padded(f.4, 2) + ":"@ + padded(f.5, 2) + "."@ + padded(f.6, 6) + "+00:00"@
}

/// The fields fit their widths.
pub open spec fn fields_fit(f: (nat, nat, nat, nat, nat, nat, nat)) -> bool {
    f.0 < 10000 && f.1 < 100 && f.2 < 100 && f.3 < 100 && f.4 < 100 && f.5 < 100 && f.6 < 1000000
}

/// Fields in time order: the first that differs is smaller.
pub open spec fn fields_lt(a: (nat, nat, nat, nat, nat, nat, nat), b: (nat, nat, nat, nat, nat, nat, nat)) -> bool {
    a.0 < b.0 || (a.0 == b.0 && (a.1 < b.1 || (a.1 == b.1 && (a.2 < b.2 || (a.2 == b.2 && (a.3 < b.3
        || (a.3 == b.3 && (a.4 < b.4 || (a.4 == b.4 && (a.5 < b.5 || (a.5 == b.5 && a.6 < b.6)))))))))))
}

#[verifier::spinoff_prover]
proof fn lemma_iso_field_0(a: (nat, nat, nat, nat, nat, nat, nat), b: (nat, nat, nat, nat, nat, nat, nat))
    requires
        fields_fit(a),
        fields_fit(b),
        a.0 < b.0,
    ensures
        text_lt(iso_fields(a), iso_fields(b)),
{
    reveal_with_fuel(pow10, 7);
    lemma_padded_order(a.0, b.0, 4);
    let p = Seq::<char>::empty();
    let ha = p + padded(a.0, 4);
    lemma_assoc(ha, "-"@, padded(a.1, 2));
    lemma_assoc(ha, "-"@ + padded(a.1, 2), "-"@);
    lemma_assoc(ha, "-"@ + padded(a.1, 2) + "-"@, padded(a.2, 2));
    lemma_assoc(ha, "-"@ + padded(a.1, 2) + "-"@ + padded(a.2, 2), "T"@);
    lemma_assoc(ha, "-"@ + padded(a.1, 2) + "-"@ + padded(a.2, 2) + "T"@, padded(a.3, 2));
    lemma_assoc(ha, "-"@ + padded(a.1, 2) + "-"@ + padded(a.2, 2) + "T"@ + padded(a.3, 2), ":"@);
    lemma_assoc(ha, "-"@ + padded(a.1, 2) + "-"@ + padded(a.2, 2) + "T"@ + padded(a.3, 2) + ":"@, padded(a.4, 2));
    lemma_assoc(ha, "-"@ + padded(a.1, 2) + "-"@ + padded(a.2, 2) + "T"@ + padded(a.3, 2) + ":"@ + padded(a.4, 2), ":"@);
    lemma_assoc(ha, "-"@ + padded(a.1, 2) + "-"@ + padded(a.2, 2) + "T"@ + padded(a.3, 2) + ":"@ + padded(a.4, 2) + ":"@, padded(a.5, 2));
    lemma_assoc(ha, "-"@ + padded(a.1, 2) + "-"@ + padded(a.2, 2) + "T"@ + padded(a.3, 2) + ":"@ + padded(a.4, 2) + ":"@ + padded(a.5, 2), "."@);
    lemma_assoc(ha, "-"@ + padded(a.1, 2) + "-"@ + padded(a.2, 2) + "T"@ + padded(a.3, 2) + ":"@ + padded(a.4, 2) + ":"@ + padded(a.5, 2) + "."@, padded(a.6, 6));
    lemma_assoc(ha, "-"@ + padded(a.1, 2) + "-"@ + padded(a.2, 2) + "T"@ + padded(a.3, 2) + ":"@ + padded(a.4, 2) + ":"@ + padded(a.5, 2) + "."@ + padded(a.6, 6), "+00:00"@);
    assert(iso_fields(a) == ha + ("-"@ + padded(a.1, 2) + "-"@ + padded(a.2, 2) + "T"@ + padded(a.3, 2) + ":"@ + padded(a.4, 2) + ":"@ + padded(a.5, 2) + "."@ + padded(a.6, 6) + "+00:00"@));
    let hb = p + padded(b.0, 4);
    lemma_assoc(hb, "-"@, padded(b.1, 2));
    lemma_assoc(hb, "-"@ + padded(b.1, 2), "-"@);
    lemma_assoc(hb, "-"@ + padded(b.1, 2) + "-"@, padded(b.2, 2));
    lemma_assoc(hb, "-"@ + padded(b.1, 2) + "-"@ + padded(b.2, 2), "T"@);
    lemma_assoc(hb, "-"@ + padded(b.1, 2) + "-"@ + padded(b.2, 2) + "T"@, padded(b.3, 2));
    lemma_assoc(hb, "-"@ + padded(b.1, 2) + "-"@ + padded(b.2, 2) + "T"@ + padded(b.3, 2), ":"@);
    lemma_assoc(hb, "-"@ + padded(b.1, 2) + "-"@ + padded(b.2, 2) + "T"@ + padded(b.3, 2) + ":"@, padded(b.4, 2));
    lemma_assoc(hb, "-"@ + padded(b.1, 2) + "-"@ + padded(b.2, 2) + "T"@ + padded(b.3, 2) + ":"@ + padded(b.4, 2), ":"@);
    lemma_assoc(hb, "-"@ + padded(b.1, 2) + "-"@ + padded(b.2, 2) + "T"@ + padded(b.3, 2) + ":"@ + padded(b.4, 2) + ":"@, padded(b.5, 2));
    lemma_assoc(hb, "-"@ + padded(b.1, 2) + "-"@ + padded(b.2, 2) + "T"@ + padded(b.3, 2) + ":"@ + padded(b.4, 2) + ":"@ + padded(b.5, 2), "."@);
    lemma_assoc(hb, "-"@ + padded(b.1, 2) + "-"@ + padded(b.2, 2) + "T"@ + padded(b.3, 2) + ":"@ + padded(b.4, 2) + ":"@ + padded(b.5, 2) + "."@, padded(b.6, 6));
    lemma_assoc(hb, "-"@ + padded(b.1, 2) + "-"@ + padded(b.2, 2) + "T"@ + padded(b.3, 2) + ":"@ + padded(b.4, 2) + ":"@ + padded(b.5, 2) + "."@ + padded(b.6, 6), "+00:00"@);
    assert(iso_fields(b) == hb + ("-"@ + padded(b.1, 2) + "-"@ + padded(b.2, 2) + "T"@ + padded(b.3, 2) + ":"@ + padded(b.4, 2) + ":"@ + padded(b.5, 2) + "."@ + padded(b.6, 6) + "+00:00"@));
    lemma_text_lt_middle(p, padded(a.0, 4), padded(b.0, 4), "-"@ + padded(a.1, 2) + "-"@ + padded(a.2, 2) + "T"@ + padded(a.3, 2) + ":"@ + padded(a.4, 2) + ":"@ + padded(a.5, 2) + "."@ + padded(a.6, 6) + "+00:00"@, "-"@ + padded(b.1, 2) + "-"@ + padded(b.2, 2) + "T"@ + padded(b.3, 2) + ":"@ + padded(b.4, 2) + ":"@ + padded(b.5, 2) + "."@ + padded(b.6, 6) + "+00:00"@);
}

#[verifier::spinoff_prover]
proof fn lemma_iso_field_1(a: (nat, nat, nat, nat, nat, nat, nat), b: (nat, nat, nat, nat, nat, nat, nat))
    requires
        fields_fit(a),
        fields_fit(b),
        a.0 == b.0,
        a.1 < b.1,
    ensures
        text_lt(iso_fields(a), iso_fields(b)),
{
    reveal_with_fuel(pow10, 7);
    lemma_padded_order(a.1, b.1, 2);
    let p = padded(a.0, 4) + "-"@;
    let ha = p + padded(a.1, 2);
    lemma_assoc(ha, "-"@, padded(a.2, 2));
    lemma_assoc(ha, "-"@ + padded(a.2, 2), "T"@);
    lemma_assoc(ha, "-"@ + padded(a.2, 2) + "T"@, padded(a.3, 2));
    lemma_assoc(ha, "-"@ + padded(a.2, 2) + "T"@ + padded(a.3, 2), ":"@);
    lemma_assoc(ha, "-"@ + padded(a.2, 2) + "T"@ + padded(a.3, 2) + ":"@, padded(a.4, 2));
    lemma_assoc(ha, "-"@ + padded(a.2, 2) + "T"@ + padded(a.3, 2) + ":"@ + padded(a.4, 2), ":"@);
    lemma_assoc(ha, "-"@ + padded(a.2, 2) + "T"@ + padded(a.3, 2) + ":"@ + padded(a.4, 2) + ":"@, padded(a.5, 2));
    lemma_assoc(ha, "-"@ + padded(a.2, 2) + "T"@ + padded(a.3, 2) + ":"@ + padded(a.4, 2) + ":"@ + padded(a.5, 2), "."@);
    lemma_assoc(ha, "-"@ + padded(a.2, 2) + "T"@ + padded(a.3, 2) + ":"@ + padded(a.4, 2) + ":"@ + padded(a.5, 2) + "."@, padded(a.6, 6));
    lemma_assoc(ha, "-"@ + padded(a.2, 2) + "T"@ + padded(a.3, 2) + ":"@ + padded(a.4, 2) + ":"@ + padded(a.5, 2) + "."@ + padded(a.6, 6), "+00:00"@);
    assert(iso_fields(a) == ha + ("-"@ + padded(a.2, 2) + "T"@ + padded(a.3, 2) + ":"@ + padded(a.4, 2) + ":"@ + padded(a.5, 2) + "."@ + padded(a.6, 6) + "+00:00"@));
    let hb = p + padded(b.1, 2);
    lemma_assoc(hb, "-"@, padded(b.2, 2));
    lemma_assoc(hb, "-"@ + padded(b.2, 2), "T"@);
    lemma_assoc(hb, "-"@ + padded(b.2, 2) + "T"@, padded(b.3, 2));
    lemma_assoc(hb, "-"@ + padded(b.2, 2) + "T"@ + padded(b.3, 2), ":"@);
    lemma_assoc(hb, "-"@ + padded(b.2, 2) + "T"@ + padded(b.3, 2) + ":"@, padded(b.4, 2));
    lemma_assoc(hb, "-"@ + padded(b.2, 2) + "T"@ + padded(b.3, 2) + ":"@ + padded(b.4, 2), ":"@);
    lemma_assoc(hb, "-"@ + padded(b.2, 2) + "T"@ + padded(b.3, 2) + ":"@ + padded(b.4, 2) + ":"@, padded(b.5, 2));
    lemma_assoc(hb, "-"@ + padded(b.2, 2) + "T"@ + padded(b.3, 2) + ":"@ + padded(b.4, 2) + ":"@ + padded(b.5, 2), "."@);
    lemma_assoc(hb, "-"@ + padded(b.2, 2) + "T"@ + padded(b.3, 2) + ":"@ + padded(b.4, 2) + ":"@ + padded(b.5, 2) + "."@, padded(b.6, 6));
    lemma_assoc(hb, "-"@ + padded(b.2, 2) + "T"@ + padded(b.3, 2) + ":"@ + padded(b.4, 2) + ":"@ + padded(b.5, 2) + "."@ + padded(b.6, 6), "+00:00"@);
    assert(iso_fields(b) == hb + ("-"@ + padded(b.2, 2) + "T"@ + padded(b.3, 2) + ":"@ + padded(b.4, 2) + ":"@ + padded(b.5, 2) + "."@ + padded(b.6, 6) + "+00:00"@));
    lemma_text_lt_middle(p, padded(a.1, 2), padded(b.1, 2), "-"@ + padded(a.2, 2) + "T"@ + padded(a.3, 2) + ":"@ + padded(a.4, 2) + ":"@ + padded(a.5, 2) + "."@ + padded(a.6, 6) + "+00:00"@, "-"@ + padded(b.2, 2) + "T"@ + padded(b.3, 2) + ":"@ + padded(b.4, 2) + ":"@ + padded(b.5, 2) + "."@ + padded(b.6, 6) + "+00:00"@);
}

#[verifier::spinoff_prover]
#[verifier::rlimit(100)]
proof fn lemma_iso_field_2(a: (nat, nat, nat, nat, nat, nat, nat), b: (nat, nat, nat, nat, nat, nat, nat))
    requires
        fields_fit(a),
        fields_fit(b),
        a.0 == b.0,
        a.1 == b.1,
        a.2 < b.2,
    ensures
        text_lt(iso_fields(a), iso_fields(b)),
{
    reveal_with_fuel(pow10, 7);
    lemma_padded_order(a.2, b.2, 2);
    let p = padded(a.0, 4) + "-"@ + padded(a.1, 2) + "-"@;
    let s1 = "T"@ + padded(a.3, 2) + ":"@ + padded(a.4, 2) + ":"@ + padded(a.5, 2) + "."@ + padded(a.6, 6) + "+00:00"@;
    let s2 = "T"@ + padded(b.3, 2) + ":"@ + padded(b.4, 2) + ":"@ + padded(b.5, 2) + "."@ + padded(b.6, 6) + "+00:00"@;
    lemma_text_lt_middle(p, padded(a.2, 2), padded(b.2, 2), s1, s2);
    assert(iso_fields(a) =~= p + padded(a.2, 2) + s1);
    assert(iso_fields(b) =~= p + padded(b.2, 2) + s2);
}

#[verifier::spinoff_prover]
proof fn lemma_iso_field_3(a: (nat, nat, nat, nat, nat, nat, nat), b: (nat, nat, nat, nat, nat, nat, nat))
    requires
        fields_fit(a),
        fields_fit(b),
        a.0 == b.0,
        a.1 == b.1,
        a.2 == b.2,
        a.3 < b.3,
    ensures
        text_lt(iso_fields(a), iso_fields(b)),
{
    reveal_with_fuel(pow10, 7);
    lemma_padded_order(a.3, b.3, 2);
    let p = padded(a.0, 4) + "-"@ + padded(a.1, 2) + "-"@ + padded(a.2, 2) + "T"@;
    let s1 = ":"@ + padded(a.4, 2) + ":"@ + padded(a.5, 2) + "."@ + padded(a.6, 6) + "+00:00"@;
    let s2 = ":"@ + padded(b.4, 2) + ":"@ + padded(b.5, 2) + "."@ + padded(b.6, 6) + "+00:00"@;
    lemma_text_lt_middle(p, padded(a.3, 2), padded(b.3, 2), s1, s2);
    assert(iso_fields(a) =~= p + padded(a.3, 2) + s1);
    assert(iso_fields(b) =~= p + padded(b.3, 2) + s2);
}

#[verifier::spinoff_prover]
proof fn lemma_iso_field_4(a: (nat, nat, nat, nat, nat, nat, nat), b: (nat, nat, nat, nat, nat, nat, nat))
    requires
        fields_fit(a),
        fields_fit(b),
        a.0 == b.0,
        a.1 == b.1,
        a.2 == b.2,
        a.3 == b.3,
        a.4 < b.4,
    ensures
        text_lt(iso_fields(a), iso_fields(b)),
{
    reveal_with_fuel(pow10, 7);
    lemma_padded_order(a.4, b.4, 2);
    let p = padded(a.0, 4) + "-"@ + padded(a.1, 2) + "-"@ + padded(a.2, 2) + "T"@ + padded(a.3, 2) + ":"@;
    let s1 = ":"@ + padded(a.5, 2) + "."@ + padded(a.6, 6) + "+00:00"@;
    let s2 = ":"@ + padded(b.5, 2) + "."@ + padded(b.6, 6) + "+00:00"@;
    lemma_text_lt_middle(p, padded(a.4, 2), padded(b.4, 2), s1, s2);
    assert(iso_fields(a) =~= p + padded(a.4, 2) + s1);
    assert(iso_fields(b) =~= p + padded(b.4, 2) + s2);
}

#[verifier::spinoff_prover]
proof fn lemma_iso_field_5(a: (nat, nat, nat, nat, nat, nat, nat), b: (nat, nat, nat, nat, nat, nat, nat))
    requires
        fields_fit(a),
        fields_fit(b),
        a.0 == b.0,
        a.1 == b.1,
        a.2 == b.2,
        a.3 == b.3,
        a.4 == b.4,
        a.5 < b.5,
    ensures
        text_lt(iso_fields(a), iso_fields(b)),
{
    reveal_with_fuel(pow10, 7);
    lemma_padded_order(a.5, b.5, 2);
    let p = padded(a.0, 4) + "-"@ + padded(a.1, 2) + "-"@ + padded(a.2, 2) + "T"@ + padded(a.3, 2) + ":"@ + padded(a.4, 2) + ":"@;
    let s1 = "."@ + padded(a.6, 6) + "+00:00"@;
    let s2 = "."@ + padded(b.6, 6) + "+00:00"@;
    lemma_text_lt_middle(p, padded(a.5, 2), padded(b.5, 2), s1, s2);
    assert(iso_fields(a) =~= p + padded(a.5, 2) + s1);
    assert(iso_fields(b) =~= p + padded(b.5, 2) + s2);
}

#[verifier::spinoff_prover]
proof fn lemma_iso_field_6(a: (nat, nat, nat, nat, nat, nat, nat), b: (nat, nat, nat, nat, nat, nat, nat))
    requires
        fields_fit(a),
        fields_fit(b),
        a.0 == b.0,
        a.1 == b.1,
        a.2 == b.2,
        a.3 == b.3,
        a.4 == b.4,
        a.5 == b.5,
        a.6 < b.6,
    ensures
        text_lt(iso_fields(a), iso_fields(b)),
{
    reveal_with_fuel(pow10, 7);
    lemma_padded_order(a.6, b.6, 6);
    let p = padded(a.0, 4) + "-"@ + padded(a.1, 2) + "-"@ + padded(a.2, 2) + "T"@ + padded(a.3, 2) + ":"@ + padded(a.4, 2) + ":"@ + padded(a.5, 2) + "."@;
    let s1 = "+00:00"@;
    let s2 = "+00:00"@;
    lemma_text_lt_middle(p, padded(a.6, 6), padded(b.6, 6), s1, s2);
    assert(iso_fields(a) =~= p + padded(a.6, 6) + s1);
    assert(iso_fields(b) =~= p + padded(b.6, 6) + s2);
}

/// Fields that fit their widths and come in time order give texts in the
/// same order.
pub proof fn lemma_iso_fields_order(a: (nat, nat, nat, nat, nat, nat, nat), b: (nat, nat, nat, nat, nat, nat, nat))
    requires
        fields_fit(a),
        fields_fit(b),
        fields_lt(a, b),
    ensures
        text_lt(iso_fields(a), iso_fields(b)),
{
    if a.0 < b.0 {
        lemma_iso_field_0(a, b);
    } else if a.1 < b.1 {
        lemma_iso_field_1(a, b);
    } else if a.2 < b.2 {
        lemma_iso_field_2(a, b);
    } else if a.3 < b.3 {
        lemma_iso_field_3(a, b);
    } else if a.4 < b.4 {
        lemma_iso_field_4(a, b);
    } else if a.5 < b.5 {
        lemma_iso_field_5(a, b);
    } else {
        lemma_iso_field_6(a, b);
    }
}

/// The fields of the ISO text of an instant.
pub open spec fn iso_fields_of(secs: nat, micros: nat) -> (nat, nat, nat, nat, nat, nat, nat) {
    let date = civil_of((secs / 86400 + 719468) as int);
    let rem = secs % 86400;
    (date.0 as nat, date.1 as nat, date.2 as nat, rem / 3600, (rem % 3600) / 60, rem % 60, micros)
}

/// The timestamp text grows with the instant: of two instants before the
/// year 10000, the later one has the later text, character by character.
pub proof fn lemma_iso_order(s1: nat, u1: nat, s2: nat, u2: nat)
    requires
        s1 < s2 || (s1 == s2 && u1 < u2),
        u1 < 1000000,
        u2 < 1000000,
        civil_of((s2 / 86400 + 719468) as int).0 < 10000,
    ensures
        text_lt(iso_timestamp(s1, u1), iso_timestamp(s2, u2)),
{
    lemma_iso_date(s1);
    lemma_iso_date(s2);
    let z1 = (s1 / 86400 + 719468) as int;
    let z2 = (s2 / 86400 + 719468) as int;
    let a = iso_fields_of(s1, u1);
    let b = iso_fields_of(s2, u2);
    assert(iso_timestamp(s1, u1) == iso_fields(a));
    assert(iso_timestamp(s2, u2) == iso_fields(b));
    if z1 < z2 {
        lemma_civil_increases(z1, z2);
    } else {
        assert(z1 == z2);
        let r1 = s1 % 86400;
        let r2 = s2 % 86400;
        assert(s1 == (s1 / 86400) * 86400 + r1 && s2 == (s2 / 86400) * 86400 + r2);
        if s1 < s2 {
            assert(r1 < r2);
            assert(r1 == (r1 / 3600) * 3600 + ((r1 % 3600) / 60) * 60 + r1 % 60);
            assert(r2 == (r2 / 3600) * 3600 + ((r2 % 3600) / 60) * 60 + r2 % 60);
        }
    }
    assert(fields_fit(a) && fields_fit(b));
    assert(fields_lt(a, b));
    lemma_iso_fields_order(a, b);
}
} // verus!
