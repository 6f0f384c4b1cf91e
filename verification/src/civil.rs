use vstd::prelude::*;

use crate::strutil::{dec_of, i64_dec_of, push_char, u64_to_string};

verus! {

/// The last second the calendar rendering covers: the end of year 9999.
pub const MAX_CIVIL_SECOND: u64 = 253402300799;

/// Saturating subtraction: the difference, or zero when it would go negative.
pub open spec fn monus(a: int, b: int) -> int {
    if a >= b {
        a - b
    } else {
        0
    }
}

fn msub(a: u64, b: u64) -> (r: u64)
    ensures
        r as int == monus(a as int, b as int),
{
    if a >= b {
        a - b
    } else {
        0
    }
}

/// The proleptic Gregorian date of a day count since 1970-01-01, as
/// (year, month, day). The era arithmetic works on 400-year cycles; the
/// saturations never fire on meaningful day counts and only keep the
/// definition total.
pub open spec fn civil_from_days(days: int) -> (int, int, int) {
    let z = days + 719468;
    let era = z / 146097;
    let doe = z % 146097;
    let yoe = monus(doe + doe / 36524, doe / 1460 + doe / 146096) / 365;
    let y = yoe + era * 400;
    let doy = monus(doe, 365 * yoe + monus(yoe / 4, yoe / 100));
    let mp = (5 * doy + 2) / 153;
    let d = monus(doy, (153 * mp + 2) / 5) + 1;
    let m = if mp < 10 {
        mp + 3
    } else {
        mp - 9
    };
    if m <= 2 {
        (y + 1, m, d)
    } else {
        (y, m, d)
    }
}

fn civil_from_days_exec(days: u64) -> (r: (u64, u64, u64))
    requires
        days <= 2932896,
    ensures
        r.0 as int == civil_from_days(days as int).0,
        r.1 as int == civil_from_days(days as int).1,
        r.2 as int == civil_from_days(days as int).2,
{
    let z: u64 = days + 719468;
    let era: u64 = z / 146097;
    let doe: u64 = z % 146097;
    let yoe: u64 = msub(doe + doe / 36524, doe / 1460 + doe / 146096) / 365;
    let y: u64 = yoe + era * 400;
    let doy: u64 = msub(doe, 365 * yoe + msub(yoe / 4, yoe / 100));
    let mp: u64 = (5 * doy + 2) / 153;
    let d: u64 = msub(doy, (153 * mp + 2) / 5) + 1;
    let m: u64 = if mp < 10 {
        mp + 3
    } else {
        mp - 9
    };
    if m <= 2 {
        (y + 1, m, d)
    } else {
        (y, m, d)
    }
}

/// A number padded to at least two digits.
pub open spec fn two_digits(n: int) -> Seq<char> {
    if 0 <= n && n < 10 {
        seq!['0'] + dec_of(n as nat)
    } else if n >= 10 {
        dec_of(n as nat)
    } else {
        i64_dec_of(n)
    }
}

fn two_digits_exec(n: u64) -> (r: String)
    ensures
        r@ == two_digits(n as int),
{
    if n < 10 {
        let mut s = String::from_str("0");
        let d = u64_to_string(n);
        s.append(d.as_str());
        proof {
            reveal_strlit("0");
            assert(s@ =~= seq!['0'] + dec_of(n as nat));
        }
        s
    } else {
        u64_to_string(n)
    }
}

/// A number padded to at least four digits.
pub open spec fn four_digits(n: int) -> Seq<char> {
    if 0 <= n && n < 10 {
        seq!['0', '0', '0'] + dec_of(n as nat)
    } else if 10 <= n && n < 100 {
        seq!['0', '0'] + dec_of(n as nat)
    } else if 100 <= n && n < 1000 {
        seq!['0'] + dec_of(n as nat)
    } else if n >= 1000 {
        dec_of(n as nat)
    } else {
        i64_dec_of(n)
    }
}

fn four_digits_exec(n: u64) -> (r: String)
    ensures
        r@ == four_digits(n as int),
{
    let prefix = if n < 10 {
        "000"
    } else if n < 100 {
        "00"
    } else if n < 1000 {
        "0"
    } else {
        ""
    };
    let mut s = String::from_str(prefix);
    let d = u64_to_string(n);
    s.append(d.as_str());
    proof {
        reveal_strlit("000");
        reveal_strlit("00");
        reveal_strlit("0");
        reveal_strlit("");
        assert(s@ =~= four_digits(n as int));
    }
    s
}

/// The calendar rendering of a Unix second: date, time of day, and the UTC
/// marker.
pub open spec fn utc_datetime_of(ts: int) -> Seq<char> {
    let days = ts / 86400;
    let sod = ts % 86400;
    let ymd = civil_from_days(days);
    four_digits(ymd.0) + seq!['-'] + two_digits(ymd.1) + seq!['-'] + two_digits(ymd.2) + seq![' ']
        + two_digits(sod / 3600) + seq![':'] + two_digits((sod % 3600) / 60) + seq![':']
        + two_digits(sod % 60) + " UTC"@
}

/// Render a Unix second within the covered range as a UTC calendar text.
pub fn utc_datetime_string(ts: u64) -> (r: String)
    requires
        ts <= MAX_CIVIL_SECOND,
    ensures
        r@ == utc_datetime_of(ts as int),
{
    let days: u64 = ts / 86400;
    let sod: u64 = ts % 86400;
    proof {
        vstd::arithmetic::div_mod::lemma_div_is_ordered(ts as int, 253402300799int, 86400);
    }
    let ymd = civil_from_days_exec(days);
    let mut s = four_digits_exec(ymd.0);
    push_char(&mut s, '-');
    let mo = two_digits_exec(ymd.1);
    s.append(mo.as_str());
    push_char(&mut s, '-');
    let da = two_digits_exec(ymd.2);
    s.append(da.as_str());
    push_char(&mut s, ' ');
    let hh = two_digits_exec(sod / 3600);
    s.append(hh.as_str());
    push_char(&mut s, ':');
    let mi = two_digits_exec((sod % 3600) / 60);
    s.append(mi.as_str());
    push_char(&mut s, ':');
    let ss = two_digits_exec(sod % 60);
    s.append(ss.as_str());
    s.append(" UTC");
    proof {
        assert(s@ =~= utc_datetime_of(ts as int));
    }
    s
}

/// The exported rendering of a timestamp: the calendar text within the
/// covered range, the raw seconds outside it.
pub open spec fn civil_or_raw(ts: int) -> Seq<char> {
    if 0 <= ts && ts <= MAX_CIVIL_SECOND {
        utc_datetime_of(ts)
    } else {
        i64_dec_of(ts)
    }
}

/// Render a timestamp as the export shows it.
pub fn civil_or_raw_string(ts: i64) -> (r: String)
    ensures
        r@ == civil_or_raw(ts as int),
{
    if ts >= 0 && ts <= 253402300799i64 {
        utc_datetime_string(ts as u64)
    } else {
        crate::strutil::i64_to_string(ts)
    }
}

} // verus!
