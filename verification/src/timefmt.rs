//! UTC timestamp formatting for the audit log.
use vstd::prelude::*;
use crate::text::{decimal, digit_char, push_char, push_decimal, seq_lt};

verus! {

/// The proleptic Gregorian (year, month, day) of `days` days after 1970-01-01
/// (negative before it), by the civil-from-days computation over 400-year eras
/// of 146097 days with years starting in March.
pub open spec fn civil_from_days(days: int) -> (int, int, int) {
    let z = days + 719468;
    let era = z / 146097;
    let doe = z - era * 146097;
    let yoe = (doe - doe / 1460 + doe / 36524 - doe / 146096) / 365;
    let y = yoe + era * 400;
    let doy = doe - (365 * yoe + yoe / 4 - yoe / 100);
    let mp = (5 * doy + 2) / 153;
    let d = doy - (153 * mp + 2) / 5 + 1;
    let m = if mp < 10 {
        mp + 3
    } else {
        mp - 9
    };
    (if m <= 2 {
        y + 1
    } else {
        y
    }, m, d)
}

/// `decimal(n)` left-padded with zeros to `width` characters.
pub open spec fn zero_pad(n: nat, width: nat) -> Seq<char>
    decreases width,
{
    if decimal(n).len() >= width {
        decimal(n)
    } else {
        seq!['0'] + zero_pad(n, (width - 1) as nat)
    }
}

/// `n` as `{:0w$}` formats it: zero-padded to `width`, a minus sign counting
/// toward the width.
pub open spec fn padded(n: int, width: nat) -> Seq<char> {
    if n >= 0 {
        zero_pad(n as nat, width)
    } else {
        seq!['-'] + zero_pad((-n) as nat, if width > 0 {
            (width - 1) as nat
        } else {
            0
        })
    }
}

/// The RFC 3339 UTC text `YYYY-MM-DDThh:mm:ssZ` of `unix_secs` seconds since
/// the Unix epoch.
pub open spec fn spec_rfc3339(unix_secs: int) -> Seq<char> {
    let days = unix_secs / 86400;
    let sod = unix_secs % 86400;
    let (y, m, d) = civil_from_days(days);
    padded(y, 4) + seq!['-'] + padded(m, 2) + seq!['-'] + padded(d, 2) + seq!['T'] + padded(
        sod / 3600,
        2,
    ) + seq![':'] + padded((sod % 3600) / 60, 2) + seq![':'] + padded(sod % 60, 2) + seq!['Z']
}

/// Number of decimal digits of `n`.
fn digits(n: u64) -> (k: u64)
    ensures
        k == decimal(n as nat).len(),
        k <= 1 + n,
    decreases n,
{
    if n < 10 {
        1
    } else {
        let k = digits(n / 10);
        k + 1
    }
}

/// Appends `n` zero-padded to `width`.
fn push_zero_padded(s: &mut String, n: u64, width: u64)
    requires
        width <= 64,
    ensures
        final(s)@ == old(s)@ + zero_pad(n as nat, width as nat),
    decreases width,
{
    let k = digits(n);
    if k >= width {
        push_decimal(s, n);
    } else {
        push_char(s, '0');
        let ghost mid = s@;
        push_zero_padded(s, n, width - 1);
        assert(s@ == old(s)@ + (seq!['0'] + zero_pad(n as nat, (width - 1) as nat)));
    }
}

/// Appends `n` as `{:0width$}` formats it.
fn push_padded(s: &mut String, n: i64, width: u64)
    requires
        1 <= width <= 64,
    ensures
        final(s)@ == old(s)@ + padded(n as int, width as nat),
{
    if n >= 0 {
        push_zero_padded(s, n as u64, width);
    } else {
        push_char(s, '-');
        let m: u64 = if n == i64::MIN {
            9223372036854775808u64
        } else {
            (-n) as u64
        };
        push_zero_padded(s, m, width - 1);
        assert(s@ == old(s)@ + (seq!['-'] + zero_pad((-n) as nat, (width - 1) as nat)));
    }
}

/// Format seconds since the Unix epoch as RFC3339 UTC, e.g. `2026-06-17T14:03:09Z`.
///
/// Uses the civil-from-days algorithm; valid across the full proleptic
/// Gregorian range that fits in `i64`.
#[verifier::rlimit(60)]
#[verifier::spinoff_prover]
pub fn rfc3339_utc(unix_secs: i64) -> (s: String)
    ensures
        s@ == spec_rfc3339(unix_secs as int),
{
    let days: i64 = match unix_secs.checked_div_euclid(86400) {
        Some(d) => d,
        None => 0,
    };
    let sod: i64 = match unix_secs.checked_rem_euclid(86400) {
        Some(r) => r,
        None => 0,
    };
    assert(days == unix_secs as int / 86400);
    assert(sod == unix_secs as int % 86400);
    assert(-106751991167301 <= days <= 106751991167300) by (nonlinear_arith)
        requires
            days == unix_secs as int / 86400,
            i64::MIN <= unix_secs <= i64::MAX,
    ;
    let z: i64 = days + 719468;
    let era: i64 = match z.checked_div_euclid(146097) {
        Some(e) => e,
        None => 0,
    };
    assert(era == z as int / 146097);
    assert(-730692558 <= era <= 730692567) by (nonlinear_arith)
        requires
            era == z as int / 146097,
            -106751991167301 + 719468 <= z <= 106751991167300 + 719468,
    ;
    assert(0 <= z - era * 146097 < 146097) by (nonlinear_arith)
        requires
            era == z as int / 146097,
    ;
    let doe: u64 = (z - era * 146097) as u64;
    let yoe: u64 = (doe - doe / 1460 + doe / 36524 - doe / 146096) / 365;
    assert(yoe <= 400) by (nonlinear_arith)
        requires
            doe < 146097,
            yoe == (doe - doe / 1460 + doe / 36524 - doe / 146096) / 365,
    ;
    let y: i64 = yoe as i64 + era * 400;
    assert(365 * yoe + yoe / 4 - yoe / 100 <= doe) by (nonlinear_arith)
        requires
            doe < 146097,
            yoe == (doe - doe / 1460 + doe / 36524 - doe / 146096) / 365,
    ;
    let doy: u64 = doe - (365 * yoe + yoe / 4 - yoe / 100);
    let mp: u64 = (5 * doy + 2) / 153;
    let day: u64 = doy - (153 * mp + 2) / 5 + 1;
    let month: u64 = if mp < 10 {
        mp + 3
    } else {
        mp - 9
    };
    let year: i64 = if month <= 2 {
        y + 1
    } else {
        y
    };
    let hour = sod / 3600;
    let minute = (sod % 3600) / 60;
    let second = sod % 60;
    let mut s = String::new();
    push_padded(&mut s, year, 4);
    push_char(&mut s, '-');
    push_padded(&mut s, month as i64, 2);
    push_char(&mut s, '-');
    push_padded(&mut s, day as i64, 2);
    push_char(&mut s, 'T');
    push_padded(&mut s, hour, 2);
    push_char(&mut s, ':');
    push_padded(&mut s, minute, 2);
    push_char(&mut s, ':');
    push_padded(&mut s, second, 2);
    push_char(&mut s, 'Z');
    s
}


/// A zero-padded number is at least as wide as asked, and never empty.
proof fn lemma_zero_pad_len(n: nat, width: nat)
    ensures
        zero_pad(n, width).len() >= width,
        zero_pad(n, width).len() >= 1,
    decreases width,
{
    crate::text::lemma_decimal_nonempty(n);
    if decimal(n).len() < width {
        lemma_zero_pad_len(n, (width - 1) as nat);
    }
}

/// A padded number is at least as wide as asked, and never empty.
proof fn lemma_padded_len(n: int, width: nat)
    ensures
        padded(n, width).len() >= width,
        padded(n, width).len() >= 1,
{
    if n >= 0 {
        lemma_zero_pad_len(n as nat, width);
    } else {
        lemma_zero_pad_len((-n) as nat, if width > 0 {
            (width - 1) as nat
        } else {
            0
        });
    }
}

/// Every timestamp has the RFC 3339 shape: at least 20 characters, a `T`
/// between the date and the time, and a closing `Z`.
pub proof fn lemma_rfc3339_shape(unix_secs: int)
    ensures
        spec_rfc3339(unix_secs).len() >= 20,
        spec_rfc3339(unix_secs).last() == 'Z',
        spec_rfc3339(unix_secs).contains('T'),
{
    let days = unix_secs / 86400;
    let sod = unix_secs % 86400;
    let (y, m, d) = civil_from_days(days);
    lemma_padded_len(y, 4);
    lemma_padded_len(m, 2);
    lemma_padded_len(d, 2);
    lemma_padded_len(sod / 3600, 2);
    lemma_padded_len((sod % 3600) / 60, 2);
    lemma_padded_len(sod % 60, 2);
    let date = padded(y, 4) + seq!['-'] + padded(m, 2) + seq!['-'] + padded(d, 2);
    let s = spec_rfc3339(unix_secs);
    assert(s[date.len() as int] == 'T');
}


/// Day of the era on which year `k` of the era (counted from March) starts.
pub open spec fn year_start(k: int) -> int {
    365 * k + k / 4 - k / 100
}

/// Year of the era of day `doe` of the era.
pub open spec fn year_of_era(doe: int) -> int {
    (doe - doe / 1460 + doe / 36524 - doe / 146096) / 365
}

/// `q` is `n / d` for a positive `d`: `d * q <= n < d * q + d`.
proof fn lemma_floor(n: int, d: int)
    requires
        d > 0,
    ensures
        d * (n / d) <= n < d * (n / d) + d,
{
    assert(d * (n / d) <= n < d * (n / d) + d) by (nonlinear_arith)
        requires
            d > 0,
    ;
}

#[verifier::spinoff_prover]
#[verifier::rlimit(60)]
proof fn lemma_year_of_era_bounds(doe: int)
    requires
        0 <= doe < 146097,
    ensures
        0 <= year_of_era(doe) <= 399,
        year_start(year_of_era(doe)) <= doe,
        doe < year_start(year_of_era(doe) + 1) || (doe == 146096 && year_of_era(doe) == 399),
{
    let q1 = doe / 1460;
    let q2 = doe / 36524;
    let q3 = doe / 146096;
    lemma_floor(doe, 1460);
    lemma_floor(doe, 36524);
    lemma_floor(doe, 146096);
    let t = doe - q1 + q2 - q3;
    let y = t / 365;
    lemma_floor(t, 365);
    lemma_floor(y, 4);
    lemma_floor(y, 100);
    lemma_floor(y + 1, 4);
    lemma_floor(y + 1, 100);
    assert(y == year_of_era(doe));
    assert(0 <= q2 <= 4 && 0 <= q3 <= 1 && 0 <= q1 <= 100);
    // Case on the century of the era.
    if q2 == 0 {
        assert(year_start(y) <= doe);
        assert(doe < year_start(y + 1));
    } else if q2 == 1 {
        assert(year_start(y) <= doe);
        assert(doe < year_start(y + 1));
    } else if q2 == 2 {
        assert(year_start(y) <= doe);
        assert(doe < year_start(y + 1));
    } else if q2 == 3 {
        assert(year_start(y) <= doe);
        assert(doe < year_start(y + 1));
    } else {
        assert(doe == 146096);
        assert(y == 399);
    }
}
/// A year of the era is 365 or 366 days long.
#[verifier::spinoff_prover]
#[verifier::rlimit(40)]
proof fn lemma_year_length(k: int)
    requires
        k >= 0,
    ensures
        365 <= year_start(k + 1) - year_start(k) <= 366,
{
    lemma_floor(k, 4);
    lemma_floor(k, 100);
    lemma_floor(k + 1, 4);
    lemma_floor(k + 1, 100);
    assert(0 <= (k + 1) / 4 - k / 4 <= 1);
    assert(0 <= (k + 1) / 100 - k / 100 <= 1);
}

/// Later years of the era start later.
#[verifier::spinoff_prover]
#[verifier::rlimit(40)]
proof fn lemma_year_start_increasing(a: int, b: int)
    requires
        0 <= a < b,
    ensures
        year_start(a) < year_start(b),
{
    lemma_floor(a, 4);
    lemma_floor(a, 100);
    lemma_floor(b, 4);
    lemma_floor(b, 100);
}

/// Day of a March-based year on which month `mp` (0 = March) starts.
pub open spec fn month_start(mp: int) -> int {
    (153 * mp + 2) / 5
}

/// The March-based month and its day, for a day of the year.
#[verifier::spinoff_prover]
#[verifier::rlimit(40)]
proof fn lemma_month_bounds(doy: int)
    requires
        0 <= doy <= 365,
    ensures
        0 <= (5 * doy + 2) / 153 <= 11,
        month_start((5 * doy + 2) / 153) <= doy < month_start((5 * doy + 2) / 153 + 1),
        1 <= doy - month_start((5 * doy + 2) / 153) + 1 <= 31,
        doy >= 337 ==> (5 * doy + 2) / 153 == 11,
{
    let mp = (5 * doy + 2) / 153;
    lemma_floor(5 * doy + 2, 153);
    lemma_floor(153 * mp + 2, 5);
    lemma_floor(153 * (mp + 1) + 2, 5);
}

/// The order key of a calendar date: increasing exactly as
/// (year, month, day) increase lexicographically, for months 1–12 and days
/// 1–31.
pub open spec fn date_key(ymd: (int, int, int)) -> int {
    ymd.0 * 512 + ymd.1 * 32 + ymd.2
}

/// The month and day of a date are in range.
pub open spec fn date_ok(ymd: (int, int, int)) -> bool {
    1 <= ymd.1 <= 12 && 1 <= ymd.2 <= 31
}

/// The next day has a later date.
#[verifier::spinoff_prover]
#[verifier::rlimit(40)]
proof fn lemma_next_day_later(days: int)
    ensures
        date_ok(civil_from_days(days)),
        date_ok(civil_from_days(days + 1)),
        date_key(civil_from_days(days)) < date_key(civil_from_days(days + 1)),
{
    let z = days + 719468;
    let era = z / 146097;
    lemma_floor(z, 146097);
    lemma_floor(z + 1, 146097);
    let doe = z - era * 146097;
    let era1 = (z + 1) / 146097;
    let doe1 = z + 1 - era1 * 146097;
    let yoe = year_of_era(doe);
    let yoe1 = year_of_era(doe1);
    lemma_year_of_era_bounds(doe);
    lemma_year_of_era_bounds(doe1);
    lemma_year_length(yoe);
    lemma_year_length(yoe1);
    let doy = doe - year_start(yoe);
    let doy1 = doe1 - year_start(yoe1);
    lemma_month_bounds(doy);
    lemma_month_bounds(doy1);
    if doe < 146096 {
        assert(era1 == era);
        assert(doe1 == doe + 1);
        if yoe1 > yoe + 1 {
            lemma_year_start_increasing(yoe + 1, yoe1);
        }
        if yoe1 < yoe {
            lemma_year_start_increasing(yoe1 + 1, yoe);
        }
        assert(yoe1 == yoe || yoe1 == yoe + 1);
        if yoe1 == yoe {
            assert(doy1 == doy + 1);
            let mp = (5 * doy + 2) / 153;
            let mp1 = (5 * doy1 + 2) / 153;
            lemma_floor(5 * doy + 2, 153);
            lemma_floor(5 * doy1 + 2, 153);
            assert(mp1 == mp || mp1 == mp + 1);
        } else {
            assert(doy1 == 0);
            assert(doy >= 337);
        }
    } else {
        assert(era1 == era + 1);
        assert(doe1 == 0);
        assert(year_of_era(0) == 0);
        assert(year_of_era(146096) == 399);
        assert(year_start(399) == 145731);
        assert(doy == 365);
    }
}

/// Of two days, the later one has the later date.
proof fn lemma_later_day_later_date(a: int, b: int)
    requires
        a < b,
    ensures
        date_key(civil_from_days(a)) < date_key(civil_from_days(b)),
        date_ok(civil_from_days(b)),
    decreases b - a,
{
    lemma_next_day_later(b - 1);
    if a < b - 1 {
        lemma_later_day_later_date(a, b - 1);
    }
}



// ------------------------------------------------------ text order

/// Texts that differ first within equally long heads are ordered by the heads.
proof fn lemma_lt_heads(a: Seq<char>, b: Seq<char>, x: Seq<char>, y: Seq<char>)
    requires
        a.len() == b.len(),
        seq_lt(a, b),
    ensures
        seq_lt(a + x, b + y),
    decreases a.len(),
{
    assert((a + x)[0] == a[0] && (b + y)[0] == b[0]);
    if a[0] == b[0] {
        assert((a + x).drop_first() == a.drop_first() + x);
        assert((b + y).drop_first() == b.drop_first() + y);
        lemma_lt_heads(a.drop_first(), b.drop_first(), x, y);
    }
}

/// Texts with a common head are ordered by what follows it.
proof fn lemma_lt_tails(a: Seq<char>, x: Seq<char>, y: Seq<char>)
    requires
        seq_lt(x, y),
    ensures
        seq_lt(a + x, a + y),
    decreases a.len(),
{
    if a.len() == 0 {
        assert(a + x == x && a + y == y);
    } else {
        assert((a + x)[0] == a[0] && (a + y)[0] == a[0]);
        assert((a + x).drop_first() == a.drop_first() + x);
        assert((a + y).drop_first() == a.drop_first() + y);
        lemma_lt_tails(a.drop_first(), x, y);
    }
}

/// The digit characters are ordered like the digits.
proof fn lemma_digit_char(d: nat)
    requires
        d < 10,
    ensures
        digit_char(d) as int == 48 + d,
{
}

/// A number below 100 zero-padded to two places: its tens and units digits.
proof fn lemma_pad2(n: nat)
    requires
        n < 100,
    ensures
        zero_pad(n, 2) == seq![digit_char(n / 10), digit_char(n % 10)],
{
    reveal_with_fuel(zero_pad, 3);
    reveal_with_fuel(decimal, 3);
    if n < 10 {
        assert(decimal(n) == seq![digit_char(n)]);
        assert(zero_pad(n, 1) == decimal(n));
        assert(digit_char(0) == '0');
    } else {
        assert(decimal(n / 10) == seq![digit_char(n / 10)]);
        assert(decimal(n) == seq![digit_char(n / 10)].push(digit_char(n % 10)));
    }
}

/// A number below 10000 zero-padded to four places: its four digits.
#[verifier::spinoff_prover]
proof fn lemma_pad4(n: nat)
    requires
        n < 10000,
    ensures
        zero_pad(n, 4) == seq![
            digit_char(n / 1000),
            digit_char((n / 100) % 10),
            digit_char((n / 10) % 10),
            digit_char(n % 10),
        ],
{
    reveal_with_fuel(zero_pad, 5);
    reveal_with_fuel(decimal, 5);
    assert(digit_char(0) == '0');
    if n < 10 {
        assert(decimal(n) == seq![digit_char(n)]);
    } else if n < 100 {
        assert(decimal(n / 10) == seq![digit_char(n / 10)]);
        assert(decimal(n) == seq![digit_char(n / 10), digit_char(n % 10)]);
    } else if n < 1000 {
        assert(decimal(n / 100) == seq![digit_char(n / 100)]);
        assert(decimal(n / 10) == seq![digit_char(n / 100), digit_char((n / 10) % 10)]);
        assert(decimal(n) == seq![digit_char(n / 100), digit_char((n / 10) % 10), digit_char(n % 10)]);
    } else {
        assert(decimal(n / 1000) == seq![digit_char(n / 1000)]);
        assert(decimal(n / 100) == seq![digit_char(n / 1000), digit_char((n / 100) % 10)]);
        assert(decimal(n / 10) == seq![
            digit_char(n / 1000),
            digit_char((n / 100) % 10),
            digit_char((n / 10) % 10),
        ]);
    }
}

/// Two-place zero padding keeps the order of numbers below 100.
proof fn lemma_pad2_lt(a: nat, b: nat)
    requires
        a < b < 100,
    ensures
        seq_lt(zero_pad(a, 2), zero_pad(b, 2)),
        zero_pad(a, 2).len() == 2,
        zero_pad(b, 2).len() == 2,
{
    lemma_pad2(a);
    lemma_pad2(b);
    lemma_digit_char(a / 10);
    lemma_digit_char(b / 10);
    lemma_digit_char(a % 10);
    lemma_digit_char(b % 10);
    let sa = zero_pad(a, 2);
    let sb = zero_pad(b, 2);
    lemma_digits2(a);
    lemma_digits2(b);
    reveal_with_fuel(seq_lt, 3);
    assert(sa.drop_first() == seq![digit_char(a % 10)]);
    assert(sb.drop_first() == seq![digit_char(b % 10)]);
    assert(sa.drop_first().drop_first() == Seq::<char>::empty());
    assert(sb.drop_first().drop_first() == Seq::<char>::empty());
}

/// The two digits of a number below 100.
proof fn lemma_digits2(a: nat)
    requires
        a < 100,
    ensures
        a == 10 * (a / 10) + a % 10,
        a / 10 < 10,
        a % 10 < 10,
{
    assert(a == 10 * (a / 10) + a % 10 && a / 10 < 10 && a % 10 < 10) by (nonlinear_arith)
        requires
            a < 100,
    ;
}

/// The four digits of a number below 10000.
proof fn lemma_digits4(a: nat)
    requires
        a < 10000,
    ensures
        a == 1000 * (a / 1000) + 100 * ((a / 100) % 10) + 10 * ((a / 10) % 10) + a % 10,
        a / 1000 < 10,
        (a / 100) % 10 < 10,
        (a / 10) % 10 < 10,
        a % 10 < 10,
{
    let t = a / 10;
    let h = a / 100;
    assert(a == 10 * t + a % 10 && a % 10 < 10) by (nonlinear_arith)
        requires
            t == a / 10,
    ;
    assert(t / 10 == h) by (nonlinear_arith)
        requires
            t == a / 10,
            h == a / 100,
    ;
    assert(t == 10 * h + t % 10 && t % 10 < 10) by (nonlinear_arith)
        requires
            h == t / 10,
    ;
    assert(h / 10 == a / 1000) by (nonlinear_arith)
        requires
            h == a / 100,
    ;
    assert(h == 10 * (h / 10) + h % 10 && h % 10 < 10 && h / 10 < 10) by (nonlinear_arith)
        requires
            h == a / 100,
            a < 10000,
    ;
}

/// Four-place zero padding keeps the order of numbers below 10000.
#[verifier::spinoff_prover]
proof fn lemma_pad4_lt(a: nat, b: nat)
    requires
        a < b < 10000,
    ensures
        seq_lt(zero_pad(a, 4), zero_pad(b, 4)),
        zero_pad(a, 4).len() == 4,
        zero_pad(b, 4).len() == 4,
{
    lemma_pad4(a);
    lemma_pad4(b);
    let da = seq![digit_char(a / 1000), digit_char((a / 100) % 10), digit_char((a / 10) % 10), digit_char(a % 10)];
    let db = seq![digit_char(b / 1000), digit_char((b / 100) % 10), digit_char((b / 10) % 10), digit_char(b % 10)];
    lemma_digit_char(a / 1000);
    lemma_digit_char(b / 1000);
    lemma_digit_char((a / 100) % 10);
    lemma_digit_char((b / 100) % 10);
    lemma_digit_char((a / 10) % 10);
    lemma_digit_char((b / 10) % 10);
    lemma_digit_char(a % 10);
    lemma_digit_char(b % 10);
    assert(da.drop_first() == seq![digit_char((a / 100) % 10), digit_char((a / 10) % 10), digit_char(a % 10)]);
    assert(db.drop_first() == seq![digit_char((b / 100) % 10), digit_char((b / 10) % 10), digit_char(b % 10)]);
    assert(da.drop_first().drop_first() == seq![digit_char((a / 10) % 10), digit_char(a % 10)]);
    assert(db.drop_first().drop_first() == seq![digit_char((b / 10) % 10), digit_char(b % 10)]);
    assert(da.drop_first().drop_first().drop_first() == seq![digit_char(a % 10)]);
    assert(db.drop_first().drop_first().drop_first() == seq![digit_char(b % 10)]);
    assert(da.drop_first().drop_first().drop_first().drop_first() == Seq::<char>::empty());
    assert(db.drop_first().drop_first().drop_first().drop_first() == Seq::<char>::empty());
    lemma_digits4(a);
    lemma_digits4(b);
    reveal_with_fuel(seq_lt, 5);
}

/// A field of fixed width and what follows its separator: ordered by the
/// field, and by what follows when the fields are equal.
proof fn lemma_field_lt(p1: Seq<char>, p2: Seq<char>, sep: Seq<char>, t1: Seq<char>, t2: Seq<char>)
    requires
        p1.len() == p2.len(),
        seq_lt(p1, p2) || (p1 == p2 && seq_lt(t1, t2)),
    ensures
        seq_lt(p1 + (sep + t1), p2 + (sep + t2)),
{
    if seq_lt(p1, p2) {
        lemma_lt_heads(p1, p2, sep + t1, sep + t2);
    } else {
        lemma_lt_tails(sep, t1, t2);
        lemma_lt_tails(p1, sep + t1, sep + t2);
    }
}

/// The time of day `hh:mm:ssZ`.
pub open spec fn clock_text(h: nat, mi: nat, sec: nat) -> Seq<char> {
    zero_pad(h, 2) + (seq![':'] + (zero_pad(mi, 2) + (seq![':'] + (zero_pad(sec, 2) + seq!['Z']))))
}

/// The whole stamp, grouped from the right.
pub open spec fn stamp_text(y: nat, m: nat, d: nat, h: nat, mi: nat, sec: nat) -> Seq<char> {
    zero_pad(y, 4) + (seq!['-'] + (zero_pad(m, 2) + (seq!['-'] + (zero_pad(d, 2) + (seq!['T'] + clock_text(h, mi, sec))))))
}

/// Earlier times of day read earlier.
#[verifier::spinoff_prover]
proof fn lemma_clock_lt(h1: nat, mi1: nat, s1: nat, h2: nat, mi2: nat, s2: nat)
    requires
        h1 < 100 && h2 < 100 && mi1 < 100 && mi2 < 100 && s1 < 100 && s2 < 100,
        h1 < h2 || (h1 == h2 && (mi1 < mi2 || (mi1 == mi2 && s1 < s2))),
    ensures
        seq_lt(clock_text(h1, mi1, s1), clock_text(h2, mi2, s2)),
{
    let z = seq!['Z'];
    let c = seq![':'];
    if h1 < h2 {
        lemma_pad2_lt(h1, h2);
    } else {
        lemma_pad2(h1);
        if mi1 < mi2 {
            lemma_pad2_lt(mi1, mi2);
        } else {
            lemma_pad2(mi1);
            lemma_pad2_lt(s1, s2);
            lemma_lt_heads(zero_pad(s1, 2), zero_pad(s2, 2), z, z);
        }
        lemma_field_lt(zero_pad(mi1, 2), zero_pad(mi2, 2), c, zero_pad(s1, 2) + z, zero_pad(s2, 2) + z);
    }
    lemma_pad2(h1);
    lemma_pad2(h2);
    lemma_pad2(mi1);
    lemma_pad2(mi2);
    lemma_field_lt(
        zero_pad(h1, 2),
        zero_pad(h2, 2),
        c,
        zero_pad(mi1, 2) + (c + (zero_pad(s1, 2) + z)),
        zero_pad(mi2, 2) + (c + (zero_pad(s2, 2) + z)),
    );
}

/// Earlier stamps (by date, then time) read earlier.
#[verifier::spinoff_prover]
proof fn lemma_stamp_lt(y1: nat, m1: nat, d1: nat, c1: Seq<char>, y2: nat, m2: nat, d2: nat, c2: Seq<char>)
    requires
        y1 < 10000 && y2 < 10000 && m1 < 100 && m2 < 100 && d1 < 100 && d2 < 100,
        y1 < y2 || (y1 == y2 && (m1 < m2 || (m1 == m2 && (d1 < d2 || (d1 == d2 && seq_lt(c1, c2)))))),
    ensures
        seq_lt(
            zero_pad(y1, 4) + (seq!['-'] + (zero_pad(m1, 2) + (seq!['-'] + (zero_pad(d1, 2) + (seq!['T'] + c1))))),
            zero_pad(y2, 4) + (seq!['-'] + (zero_pad(m2, 2) + (seq!['-'] + (zero_pad(d2, 2) + (seq!['T'] + c2))))),
        ),
{
    let dash = seq!['-'];
    let tee = seq!['T'];
    lemma_pad4(y1);
    lemma_pad4(y2);
    lemma_pad2(m1);
    lemma_pad2(m2);
    lemma_pad2(d1);
    lemma_pad2(d2);
    let t1 = zero_pad(d1, 2) + (tee + c1);
    let t2 = zero_pad(d2, 2) + (tee + c2);
    if y1 == y2 && m1 == m2 {
        if d1 < d2 {
            lemma_pad2_lt(d1, d2);
        }
        lemma_field_lt(zero_pad(d1, 2), zero_pad(d2, 2), tee, c1, c2);
    }
    if y1 == y2 {
        if m1 < m2 {
            lemma_pad2_lt(m1, m2);
        }
        lemma_field_lt(zero_pad(m1, 2), zero_pad(m2, 2), dash, t1, t2);
    }
    if y1 < y2 {
        lemma_pad4_lt(y1, y2);
    }
    lemma_field_lt(zero_pad(y1, 4), zero_pad(y2, 4), dash, zero_pad(m1, 2) + (dash + t1), zero_pad(m2, 2) + (dash + t2));
}

/// The date of a day between 1970-01-01 and 9999-12-31 has a four-digit year.
#[verifier::spinoff_prover]
proof fn lemma_date_in_range(days: int)
    requires
        0 <= days <= 2932896,
    ensures
        date_ok(civil_from_days(days)),
        1970 <= civil_from_days(days).0 <= 9999,
{
    assert(civil_from_days(0) == (1970int, 1int, 1int));
    assert(civil_from_days(2932896) == (9999int, 12int, 31int));
    lemma_next_day_later(days);
    if days > 0 {
        lemma_later_day_later_date(0, days);
    }
    if days < 2932896 {
        lemma_later_day_later_date(days, 2932896);
    }
}

/// The hour, minute and second of a second of the day.
proof fn lemma_clock_parts(sod: int)
    requires
        0 <= sod < 86400,
    ensures
        sod == 3600 * (sod / 3600) + 60 * ((sod % 3600) / 60) + sod % 60,
        0 <= sod / 3600 < 24,
        0 <= (sod % 3600) / 60 < 60,
        0 <= sod % 60 < 60,
{
    let h = sod / 3600;
    let r = sod % 3600;
    assert(sod == 3600 * h + r && 0 <= r < 3600 && 0 <= h < 24) by (nonlinear_arith)
        requires
            0 <= sod < 86400,
            h == sod / 3600,
            r == sod % 3600,
    ;
    assert(r == 60 * (r / 60) + r % 60 && 0 <= r / 60 < 60 && 0 <= r % 60 < 60) by (nonlinear_arith)
        requires
            0 <= r < 3600,
    ;
    assert(r % 60 == sod % 60) by (nonlinear_arith)
        requires
            sod == 3600 * h + r,
            0 <= r < 3600,
    ;
}

/// The stamp of an instant, field by field.
#[verifier::rlimit(60)]
#[verifier::spinoff_prover]
proof fn lemma_stamp_of(x: int)
    requires
        0 <= x <= 253402300799,
    ensures
        ({
            let days = x / 86400;
            let sod = x % 86400;
            let (y, m, d) = civil_from_days(days);
            &&& 0 <= days <= 2932896
            &&& 0 <= sod < 86400
            &&& 1970 <= y <= 9999
            &&& date_ok((y, m, d))
            &&& spec_rfc3339(x) == stamp_text(
                y as nat,
                m as nat,
                d as nat,
                (sod / 3600) as nat,
                ((sod % 3600) / 60) as nat,
                (sod % 60) as nat,
            )
        }),
{
    let days = x / 86400;
    let sod = x % 86400;
    assert(0 <= days <= 2932896 && 0 <= sod < 86400) by (nonlinear_arith)
        requires
            0 <= x <= 253402300799,
            days == x / 86400,
            sod == x % 86400,
    ;
    lemma_date_in_range(days);
    lemma_clock_parts(sod);
    let (y, m, d) = civil_from_days(days);
    let (h, mi, se) = (sod / 3600, (sod % 3600) / 60, sod % 60);
    let py = zero_pad(y as nat, 4);
    let pm = zero_pad(m as nat, 2);
    let pd = zero_pad(d as nat, 2);
    let ph = zero_pad(h as nat, 2);
    let pmi = zero_pad(mi as nat, 2);
    let ps = zero_pad(se as nat, 2);
    assert(padded(y, 4) == py);
    assert(padded(m, 2) == pm);
    assert(padded(d, 2) == pd);
    assert(padded(h, 2) == ph);
    assert(padded(mi, 2) == pmi);
    assert(padded(se, 2) == ps);
    assert(spec_rfc3339(x) == py + seq!['-'] + pm + seq!['-'] + pd + seq!['T'] + ph + seq![':'] + pmi + seq![':'] + ps
        + seq!['Z']);
    let right = clock_text(h as nat, mi as nat, se as nat);
    assert(ph + seq![':'] + pmi + seq![':'] + ps + seq!['Z'] =~= right);
    assert(py + seq!['-'] + pm + seq!['-'] + pd + seq!['T'] + ph + seq![':'] + pmi + seq![':'] + ps + seq!['Z']
        =~= py + seq!['-'] + pm + seq!['-'] + pd + seq!['T'] + right);
    assert(py + seq!['-'] + pm + seq!['-'] + pd + seq!['T'] + right =~= stamp_text(
        y as nat,
        m as nat,
        d as nat,
        h as nat,
        mi as nat,
        se as nat,
    ));
    assert(spec_rfc3339(x) == stamp_text(
        y as nat,
        m as nat,
        d as nat,
        (sod / 3600) as nat,
        ((sod % 3600) / 60) as nat,
        (sod % 60) as nat,
    ));
}

/// Audit timestamps sort like the instants they record: from 1970 to the end
/// of 9999, the RFC 3339 text of an earlier instant sorts before that of a
/// later one.
#[verifier::spinoff_prover]
pub proof fn lemma_rfc3339_ordered(a: int, b: int)
    requires
        0 <= a < b <= 253402300799,
    ensures
        seq_lt(spec_rfc3339(a), spec_rfc3339(b)),
{
    lemma_stamp_of(a);
    lemma_stamp_of(b);
    let (da, sa) = (a / 86400, a % 86400);
    let (db, sb) = (b / 86400, b % 86400);
    assert(da < db || (da == db && sa < sb)) by (nonlinear_arith)
        requires
            a < b,
            da == a / 86400,
            db == b / 86400,
            sa == a % 86400,
            sb == b % 86400,
            0 <= a,
    ;
    let ca = civil_from_days(da);
    let cb = civil_from_days(db);
    let ka = clock_text((sa / 3600) as nat, ((sa % 3600) / 60) as nat, (sa % 60) as nat);
    let kb = clock_text((sb / 3600) as nat, ((sb % 3600) / 60) as nat, (sb % 60) as nat);
    if da < db {
        lemma_later_day_later_date(da, db);
    } else {
        lemma_clock_parts(sa);
        lemma_clock_parts(sb);
        lemma_clock_lt(
            (sa / 3600) as nat,
            ((sa % 3600) / 60) as nat,
            (sa % 60) as nat,
            (sb / 3600) as nat,
            ((sb % 3600) / 60) as nat,
            (sb % 60) as nat,
        );
    }
    lemma_stamp_lt(
        ca.0 as nat,
        ca.1 as nat,
        ca.2 as nat,
        ka,
        cb.0 as nat,
        cb.1 as nat,
        cb.2 as nat,
        kb,
    );
}
} // verus!
