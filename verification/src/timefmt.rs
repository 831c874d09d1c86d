//! Timestamp formatting for directory listings.
//!
//! File modification times arrive as Unix timestamps (seconds since
//! 1970-01-01). They are shown as `YYYY-MM-DD HH:MM:SS` in UTC. The
//! date part uses the standard civil-from-days conversion on the day
//! number; the proofs here establish that the computed month and day
//! always lie in their calendar ranges.

use vstd::prelude::*;
use vstd::arithmetic::div_mod::lemma_fundamental_div_mod;

verus! {

/// One decimal digit as a character.
pub open spec fn dec_digit(v: int) -> char {
    if v == 0 { '0' }
    else if v == 1 { '1' }
    else if v == 2 { '2' }
    else if v == 3 { '3' }
    else if v == 4 { '4' }
    else if v == 5 { '5' }
    else if v == 6 { '6' }
    else if v == 7 { '7' }
    else if v == 8 { '8' }
    else { '9' }
}

/// The decimal digits of a non-negative number, most significant first.
pub open spec fn digits_spec(v: int) -> Seq<char>
    decreases v,
{
    if v < 10 {
        seq![dec_digit(v)]
    } else {
        digits_spec(v / 10) + seq![dec_digit(v % 10)]
    }
}

/// A number padded with leading zeros to two places.
pub open spec fn pad2_spec(v: int) -> Seq<char> {
    seq![dec_digit(v / 10 % 10), dec_digit(v % 10)]
}

/// A number padded with leading zeros to four places; wider numbers
/// keep all their digits.
pub open spec fn pad4_spec(v: int) -> Seq<char> {
    if v < 10000 {
        seq![
            dec_digit(v / 1000 % 10),
            dec_digit(v / 100 % 10),
            dec_digit(v / 10 % 10),
            dec_digit(v % 10),
        ]
    } else {
        digits_spec(v)
    }
}

/// The civil date (year, month, day) of a day number counted from
/// 1970-01-01: the standard era/day-of-era decomposition of the
/// Gregorian calendar. The day-of-year is clamped into one year so that
/// the function is total and every division below acts on a
/// non-negative operand.
pub closed spec fn civil_from_days(z: int) -> (int, int, int) {
    let days = z + 719468;
    let era = days / 146097;
    let doe = days % 146097;
    let yoe = (doe - doe / 1460 + doe / 36524 - doe / 146096) / 365;
    let y = yoe + era * 400;
    let start = 365 * yoe + yoe / 4 - yoe / 100;
    let doy = if doe < start {
        0
    } else if doe - start > 365 {
        365
    } else {
        doe - start
    };
    let mp = (5 * doy + 2) / 153;
    let d = doy - (153 * mp + 2) / 5 + 1;
    let m = if mp < 10 { mp + 3 } else { mp - 9 };
    (if m <= 2 { y + 1 } else { y }, m, d)
}

proof fn div_facts(a: int, b: int)
    requires
        a >= 0,
        b > 0,
    ensures
        a == b * (a / b) + a % b,
        0 <= a % b < b,
        0 <= a / b,
        b * (a / b) <= a,
{
    lemma_fundamental_div_mod(a, b);
    vstd::arithmetic::div_mod::lemma_remainder_upper(a, b);
    vstd::arithmetic::div_mod::lemma_remainder_lower(a, b);
    vstd::arithmetic::div_mod::lemma_div_pos_is_pos(a, b);
}

/// One string literal per decimal digit.
fn digit_str(v: u64) -> (r: &'static str)
    requires
        v < 10,
    ensures
        r@ == seq![dec_digit(v as int)],
{
    proof {
        reveal_strlit("0");
        reveal_strlit("1");
        reveal_strlit("2");
        reveal_strlit("3");
        reveal_strlit("4");
        reveal_strlit("5");
        reveal_strlit("6");
        reveal_strlit("7");
        reveal_strlit("8");
        reveal_strlit("9");
    }
    match v {
        0 => "0",
        1 => "1",
        2 => "2",
        3 => "3",
        4 => "4",
        5 => "5",
        6 => "6",
        7 => "7",
        8 => "8",
        _ => "9",
    }
}

/// Appends the decimal digits of `v` to `out`.
pub fn push_digits(out: &mut String, v: u64)
    ensures
        final(out)@ == old(out)@ + digits_spec(v as int),
    decreases v,
{
    if v < 10 {
        out.append(digit_str(v));
    } else {
        push_digits(out, v / 10);
        out.append(digit_str(v % 10));
        proof {
            assert(out@ =~= old(out)@ + digits_spec(v as int));
        }
    }
}

/// Appends `v` zero-padded to two places.
pub fn push_pad2(out: &mut String, v: u64)
    ensures
        final(out)@ == old(out)@ + pad2_spec(v as int),
{
    out.append(digit_str(v / 10 % 10));
    out.append(digit_str(v % 10));
    proof {
        assert(out@ =~= old(out)@ + pad2_spec(v as int));
    }
}

/// Appends `v` zero-padded to four places.
pub fn push_pad4(out: &mut String, v: u64)
    ensures
        final(out)@ == old(out)@ + pad4_spec(v as int),
{
    if v < 10000 {
        out.append(digit_str(v / 1000 % 10));
        out.append(digit_str(v / 100 % 10));
        out.append(digit_str(v / 10 % 10));
        out.append(digit_str(v % 10));
        proof {
            assert(out@ =~= old(out)@ + pad4_spec(v as int));
        }
    } else {
        push_digits(out, v);
    }
}

/// Converts a day number (counted from 1970-01-01, non-negative) to a
/// civil date. The month is always in 1..=12 and the day in 1..=31.
pub fn days_to_ymd(days: i64) -> (r: (i64, u32, u32))
    requires
        0 <= days,
    ensures
        (r.0 as int, r.1 as int, r.2 as int) == civil_from_days(days as int),
        1 <= r.1 <= 12,
        1 <= r.2 <= 31,
        r.0 >= 1600,
{
    let total: u64 = (days as u64) + 719468;
    let era: u64 = total / 146097;
    let doe: u64 = total % 146097;
    proof {
        div_facts(total as int, 146097);
        assert(era >= 4);
        assert(era <= 126287697907274);
    }
    let q1460: u64 = doe / 1460;
    let q36524: u64 = doe / 36524;
    let q146096: u64 = doe / 146096;
    proof {
        div_facts(doe as int, 1460);
        div_facts(doe as int, 36524);
        div_facts(doe as int, 146096);
        assert(q1460 <= 100);
        assert(q36524 <= 4);
        assert(q146096 <= 1);
        assert(q1460 <= doe);
        if doe <= 146095 {
            assert(q146096 == 0);
        } else {
            assert(doe == 146096);
            assert(q1460 == 100);
            assert(q36524 == 4);
            assert(q146096 == 1);
        }
        assert(doe + q36524 >= q1460 + q146096);
    }
    let yn: u64 = doe + q36524 - q1460 - q146096;
    let yoe: u64 = yn / 365;
    proof {
        div_facts(yn as int, 365);
        assert(yn <= 146100);
        assert(yoe <= 400);
    }
    let q4: u64 = yoe / 4;
    let q100: u64 = yoe / 100;
    proof {
        div_facts(yoe as int, 4);
        div_facts(yoe as int, 100);
        assert(q4 <= 100);
        assert(q100 <= 4);
        assert(q100 <= q4);
    }
    let start: u64 = 365 * yoe + q4 - q100;
    let doy: u64 = if doe < start {
        0
    } else if doe - start > 365 {
        365
    } else {
        doe - start
    };
    proof {
        assert(doy <= 365);
    }
    let mp: u64 = (5 * doy + 2) / 153;
    proof {
        div_facts(5 * doy as int + 2, 153);
        assert(mp <= 11);
    }
    let q5: u64 = (153 * mp + 2) / 5;
    proof {
        div_facts(153 * mp as int + 2, 5);
        // 153 * mp <= 5 * doy + 2, so the quotient never exceeds doy,
        // and the day of month lands in 1..=31.
        assert(q5 <= doy);
        assert(5 * doy <= 153 * mp + 150);
        assert(doy - q5 <= 30);
    }
    let dd: u64 = doy - q5 + 1;
    let m: u64 = if mp < 10 { mp + 3 } else { mp - 9 };
    let y: u64 = yoe + era * 400;
    let year: u64 = if m <= 2 { y + 1 } else { y };
    proof {
        assert(1 <= m <= 12);
        assert(1 <= dd <= 31);
        assert(y >= 1600);
        assert(y <= 400 + 126287697907274 * 400);
        assert(year as int == civil_from_days(days as int).0);
    }
    (year as i64, m as u32, dd as u32)
}

/// The full `YYYY-MM-DD HH:MM:SS` rendering of a Unix timestamp.
pub open spec fn timestamp_spec(secs: int) -> Seq<char> {
    let days = secs / 86400;
    let rem = secs % 86400;
    let ymd = civil_from_days(days);
    pad4_spec(ymd.0) + "-"@ + pad2_spec(ymd.1) + "-"@ + pad2_spec(ymd.2) + " "@
        + pad2_spec(rem / 3600) + ":"@ + pad2_spec(rem % 3600 / 60) + ":"@ + pad2_spec(rem % 60)
}

/// Formats a Unix timestamp (seconds since the epoch, UTC) as
/// `YYYY-MM-DD HH:MM:SS`.
pub fn chrono_from_unix_timestamp(secs: u64) -> (r: String)
    ensures
        r@ == timestamp_spec(secs as int),
{
    let days: u64 = secs / 86400;
    let rem: u64 = secs % 86400;
    proof {
        div_facts(secs as int, 86400);
        assert(days <= u64::MAX as int / 86400);
        div_facts(rem as int, 3600);
        div_facts(rem as int % 3600, 60);
    }
    let (year, month, day) = days_to_ymd(days as i64);
    let hours: u64 = rem / 3600;
    let minutes: u64 = rem % 3600 / 60;
    let seconds: u64 = rem % 60;
    let mut out = String::new();
    push_pad4(&mut out, year as u64);
    out.append("-");
    push_pad2(&mut out, month as u64);
    out.append("-");
    push_pad2(&mut out, day as u64);
    out.append(" ");
    push_pad2(&mut out, hours);
    out.append(":");
    push_pad2(&mut out, minutes);
    out.append(":");
    push_pad2(&mut out, seconds);
    proof {
        assert(out@ =~= timestamp_spec(secs as int));
    }
    out
}

} // verus!
