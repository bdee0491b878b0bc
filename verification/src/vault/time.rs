//! Time formatting without a calendar crate: Unix seconds to ISO 8601 UTC,
//! and today's date. ISO 8601 strings order lexicographically as they order
//! in time, which is what index queries rely on.
use vstd::prelude::*;

use crate::text::{
    dec_pad, digits, lemma_dec_pad_digits, lemma_digits_len, lemma_digits_order, lemma_lex_extend,
    lemma_lex_prefix, lex_lt, pow10, push_char, push_dec_pad,
};

verus! {

/// Largest day number reachable from a `u64` count of seconds.
pub open spec fn max_day() -> int {
    213_503_982_334_601
}

/// Howard Hinnant's `civil_from_days`: the proleptic Gregorian date
/// `(year, month, day)` of day `z` counted from 1970-01-01.
pub open spec fn civil_from_days_spec(z: int) -> (int, int, int) {
    let z = z + 719_468;
    let era = (if z >= 0 { z } else { z - 146_096 }) / 146_097;
    let doe = z - era * 146_097;
    let yoe = (doe - doe / 1460 + doe / 36_524 - doe / 146_096) / 365;
    let y = yoe + era * 400;
    let doy = doe - (365 * yoe + yoe / 4 - yoe / 100);
    let mp = (5 * doy + 2) / 153;
    let d = doy - (153 * mp + 2) / 5 + 1;
    let m = if mp < 10 { mp + 3 } else { mp - 9 };
    (if m <= 2 { y + 1 } else { y }, m, d)
}

fn civil_from_days(z: i64) -> (r: (i64, u32, u32))
    requires
        0 <= z <= max_day(),
    ensures
        r.0 == civil_from_days_spec(z as int).0,
        r.1 == civil_from_days_spec(z as int).1,
        r.2 == civil_from_days_spec(z as int).2,
        1 <= r.1 <= 12,
        1 <= r.2 <= 31,
        0 <= r.0,
{
    let z = z + 719_468;
    let era = z / 146_097;
    assert(era * 146_097 <= z) by (nonlinear_arith)
        requires
            era == z / 146_097,
            z >= 0,
    ;
    assert(z - era * 146_097 < 146_097) by (nonlinear_arith)
        requires
            era == z / 146_097,
            z >= 0,
    ;
    let doe = z - era * 146_097;
    let yoe = (doe - doe / 1460 + doe / 36_524 - doe / 146_096) / 365;
    let y = yoe + era * 400;
    let doy = doe - (365 * yoe + yoe / 4 - yoe / 100);
    proof {
        lemma_doy_range(doe as int);
    }
    let mp = (5 * doy + 2) / 153;
    let d = doy - (153 * mp + 2) / 5 + 1;
    proof {
        lemma_day_range(doy as int);
    }
    let m = if mp < 10 { mp + 3 } else { mp - 9 };
    let year = if m <= 2 { y + 1 } else { y };
    (year, m as u32, d as u32)
}

/// Day of year (March-based) derived from the day of era lies in `[0, 365]`.
proof fn lemma_doy_range(doe: int)
    requires
        0 <= doe < 146_097,
    ensures
        ({
            let yoe = (doe - doe / 1460 + doe / 36_524 - doe / 146_096) / 365;
            let doy = doe - (365 * yoe + yoe / 4 - yoe / 100);
            0 <= yoe <= 399 && 0 <= doy <= 365
        }),
{
    let c = doe / 36_524;
    let q = doe / 1460;
    let e = doe / 146_096;
    assert(0 <= c <= 4 && 0 <= q <= 100 && 0 <= e <= 1) by (nonlinear_arith)
        requires
            0 <= doe < 146_097,
            c == doe / 36_524,
            q == doe / 1460,
            e == doe / 146_096,
    ;
    let n = doe - q + c - e;
    let yoe = n / 365;
    assert(0 <= yoe <= 399) by (nonlinear_arith)
        requires
            0 <= doe < 146_097,
            q == doe / 1460,
            c == doe / 36_524,
            e == doe / 146_096,
            n == doe - q + c - e,
            yoe == n / 365,
    ;
    // The year-of-era formula inverts the day count of a 400-year cycle; the
    // bound on the day of year follows from splitting `doe` into its
    // 4-year and 100-year parts.
    assert(0 <= doe - (365 * yoe + yoe / 4 - yoe / 100) <= 365) by (nonlinear_arith)
        requires
            0 <= doe < 146_097,
            q == doe / 1460,
            c == doe / 36_524,
            e == doe / 146_096,
            n == doe - q + c - e,
            yoe == n / 365,
            0 <= yoe <= 399,
    ;
}

/// March-based month and day ranges derived from the day of year.
proof fn lemma_day_range(doy: int)
    requires
        0 <= doy <= 365,
    ensures
        ({
            let mp = (5 * doy + 2) / 153;
            let d = doy - (153 * mp + 2) / 5 + 1;
            0 <= mp <= 11 && 1 <= d <= 31
        }),
{
    let mp = (5 * doy + 2) / 153;
    assert(0 <= mp <= 11) by (nonlinear_arith)
        requires
            0 <= doy <= 365,
            mp == (5 * doy + 2) / 153,
    ;
    assert(1 <= doy - (153 * mp + 2) / 5 + 1 <= 31) by (nonlinear_arith)
        requires
            0 <= doy <= 365,
            mp == (5 * doy + 2) / 153,
            0 <= mp <= 11,
    ;
}

// ---------------------------------------------------------------------------
// Days in order
// ---------------------------------------------------------------------------

/// The counting behind the year of era: days minus the 4-year, 100-year and
/// 400-year leap corrections.
spec fn leap_count(doe: int) -> int {
    doe - doe / 1460 + doe / 36_524 - doe / 146_096
}

proof fn lemma_leap_count_step(doe: int)
    requires
        0 <= doe < 146_096,
    ensures
        leap_count(doe) <= leap_count(doe + 1),
{
    let a = doe / 1460;
    let a2 = (doe + 1) / 1460;
    let c = doe / 36_524;
    let c2 = (doe + 1) / 36_524;
    let e = doe / 146_096;
    let e2 = (doe + 1) / 146_096;
    assert(a2 == a || a2 == a + 1);
    assert(c2 == c || c2 == c + 1);
    assert(e2 == e || e2 == e + 1);
    if e2 == e + 1 {
        assert(doe + 1 == 146_096);
        assert(a2 == a);
        assert(c2 == c + 1);
    }
}

proof fn lemma_leap_count_mono(d1: int, d2: int)
    requires
        0 <= d1 <= d2 < 146_097,
    ensures
        leap_count(d1) <= leap_count(d2),
    decreases d2 - d1,
{
    if d1 < d2 {
        lemma_leap_count_mono(d1, d2 - 1);
        lemma_leap_count_step(d2 - 1);
    }
}

/// The March-based year, month index (0 = March) and day of day `z`, as one
/// month number and a day.
spec fn month_serial(z: int) -> int {
    let zz = z + 719_468;
    let era = zz / 146_097;
    let doe = zz - era * 146_097;
    let yoe = leap_count(doe) / 365;
    let doy = doe - (365 * yoe + yoe / 4 - yoe / 100);
    let mp = (5 * doy + 2) / 153;
    12 * (yoe + era * 400) + mp
}

spec fn day_of_month(z: int) -> int {
    let zz = z + 719_468;
    let era = zz / 146_097;
    let doe = zz - era * 146_097;
    let yoe = leap_count(doe) / 365;
    let doy = doe - (365 * yoe + yoe / 4 - yoe / 100);
    let mp = (5 * doy + 2) / 153;
    doy - (153 * mp + 2) / 5 + 1
}

/// The civil date of a day is its month number shifted to January-based
/// years: `12 * year + month` is the March-based month number plus 3.
proof fn lemma_civil_serial(z: int)
    requires
        z >= 0,
    ensures
        12 * civil_from_days_spec(z).0 + civil_from_days_spec(z).1 == month_serial(z) + 3,
        civil_from_days_spec(z).2 == day_of_month(z),
{
    let zz = z + 719_468;
    let era = zz / 146_097;
    assert(0 <= zz - era * 146_097 < 146_097) by (nonlinear_arith)
        requires
            era == zz / 146_097,
            zz >= 0,
    ;
    let doe = zz - era * 146_097;
    lemma_doy_range(doe);
    let yoe = leap_count(doe) / 365;
    let doy = doe - (365 * yoe + yoe / 4 - yoe / 100);
    lemma_day_range(doy);
}

/// Within one 400-year era, later days have later (month number, day).
proof fn lemma_era_order(doe1: int, doe2: int)
    requires
        0 <= doe1 < doe2 < 146_097,
    ensures
        ({
            let y1 = leap_count(doe1) / 365;
            let y2 = leap_count(doe2) / 365;
            let doy1 = doe1 - (365 * y1 + y1 / 4 - y1 / 100);
            let doy2 = doe2 - (365 * y2 + y2 / 4 - y2 / 100);
            let mp1 = (5 * doy1 + 2) / 153;
            let mp2 = (5 * doy2 + 2) / 153;
            let d1 = doy1 - (153 * mp1 + 2) / 5 + 1;
            let d2 = doy2 - (153 * mp2 + 2) / 5 + 1;
            12 * y1 + mp1 < 12 * y2 + mp2 || (12 * y1 + mp1 == 12 * y2 + mp2 && d1 < d2)
        }),
{
    let n1 = leap_count(doe1);
    let n2 = leap_count(doe2);
    lemma_leap_count_mono(doe1, doe2);
    let y1 = n1 / 365;
    let y2 = n2 / 365;
    assert(y1 <= y2) by (nonlinear_arith)
        requires
            0 <= n1 <= n2,
            y1 == n1 / 365,
            y2 == n2 / 365,
    ;
    lemma_doy_range(doe1);
    lemma_doy_range(doe2);
    let doy1 = doe1 - (365 * y1 + y1 / 4 - y1 / 100);
    let doy2 = doe2 - (365 * y2 + y2 / 4 - y2 / 100);
    lemma_day_range(doy1);
    lemma_day_range(doy2);
    let mp1 = (5 * doy1 + 2) / 153;
    let mp2 = (5 * doy2 + 2) / 153;
    if y1 == y2 {
        assert(doy1 < doy2);
        assert(mp1 <= mp2) by (nonlinear_arith)
            requires
                0 <= doy1 < doy2,
                mp1 == (5 * doy1 + 2) / 153,
                mp2 == (5 * doy2 + 2) / 153,
        ;
    }
}

/// Later days have later dates: the month number grows, or stays and the
/// day grows.
proof fn lemma_days_in_order(z1: int, z2: int)
    requires
        0 <= z1 < z2,
    ensures
        month_serial(z1) < month_serial(z2) || (month_serial(z1) == month_serial(z2)
            && day_of_month(z1) < day_of_month(z2)),
{
    let zz1 = z1 + 719_468;
    let zz2 = z2 + 719_468;
    let e1 = zz1 / 146_097;
    let e2 = zz2 / 146_097;
    assert(e1 <= e2 && 0 <= zz1 - e1 * 146_097 < 146_097 && 0 <= zz2 - e2 * 146_097 < 146_097)
        by (nonlinear_arith)
        requires
            0 <= zz1 < zz2,
            e1 == zz1 / 146_097,
            e2 == zz2 / 146_097,
    ;
    let doe1 = zz1 - e1 * 146_097;
    let doe2 = zz2 - e2 * 146_097;
    lemma_doy_range(doe1);
    lemma_doy_range(doe2);
    let y1 = leap_count(doe1) / 365;
    let y2 = leap_count(doe2) / 365;
    lemma_day_range(doe1 - (365 * y1 + y1 / 4 - y1 / 100));
    lemma_day_range(doe2 - (365 * y2 + y2 / 4 - y2 / 100));
    if e1 == e2 {
        lemma_era_order(doe1, doe2);
    } else {
        assert(y1 + e1 * 400 < y2 + e2 * 400) by (nonlinear_arith)
            requires
                e1 < e2,
                0 <= y1 <= 399,
                0 <= y2,
        ;
    }
}

/// `YYYY-MM-DD` for a civil date.
pub open spec fn iso_date_spec(y: int, m: int, d: int) -> Seq<char> {
    dec_pad(y as nat, 4) + seq!['-'] + dec_pad(m as nat, 2) + seq!['-'] + dec_pad(d as nat, 2)
}

/// The ISO 8601 UTC timestamp `YYYY-MM-DDTHH:MM:SSZ` of a Unix second.
pub open spec fn unix_to_iso_spec(secs: nat) -> Seq<char> {
    let c = civil_from_days_spec((secs / 86_400) as int);
    let rem = secs % 86_400;
    iso_date_spec(c.0, c.1, c.2) + seq!['T'] + dec_pad(rem / 3600, 2) + seq![':'] + dec_pad(
        (rem % 3600) / 60,
        2,
    ) + seq![':'] + dec_pad(rem % 60, 2) + seq!['Z']
}

/// The ISO 8601 date `YYYY-MM-DD` (UTC) of a Unix second.
pub open spec fn unix_to_date_spec(secs: nat) -> Seq<char> {
    let c = civil_from_days_spec((secs / 86_400) as int);
    iso_date_spec(c.0, c.1, c.2)
}

fn push_date(out: &mut String, secs: u64)
    ensures
        final(out)@ == old(out)@ + unix_to_date_spec(secs as nat),
{
    let (y, m, d) = civil_from_days((secs / 86_400) as i64);
    push_dec_pad(out, y as u64, 4);
    push_char(out, '-');
    push_dec_pad(out, m as u64, 2);
    push_char(out, '-');
    push_dec_pad(out, d as u64, 2);
    assert(out@ =~= old(out)@ + unix_to_date_spec(secs as nat));
}

/// Unix seconds to their date `YYYY-MM-DD` (UTC).
pub fn unix_to_date(secs: u64) -> (s: String)
    ensures
        s@ == unix_to_date_spec(secs as nat),
{
    let mut out = String::new();
    push_date(&mut out, secs);
    assert(out@ =~= unix_to_date_spec(secs as nat));
    out
}

/// Unix seconds to `YYYY-MM-DDTHH:MM:SSZ`.
pub fn unix_to_iso(secs: u64) -> (s: String)
    ensures
        s@ == unix_to_iso_spec(secs as nat),
{
    let mut out = String::new();
    push_date(&mut out, secs);
    let rem = secs % 86_400;
    push_char(&mut out, 'T');
    push_dec_pad(&mut out, rem / 3600, 2);
    push_char(&mut out, ':');
    push_dec_pad(&mut out, (rem % 3600) / 60, 2);
    push_char(&mut out, ':');
    push_dec_pad(&mut out, rem % 60, 2);
    push_char(&mut out, 'Z');
    assert(out@ =~= unix_to_iso_spec(secs as nat));
    out
}

// ---------------------------------------------------------------------------
// Timestamps sort in time order
// ---------------------------------------------------------------------------

/// The last second written with a four-digit year, 9999-12-31T23:59:59Z;
/// later years take five digits and no longer sort as text.
pub open spec fn last_four_digit_second() -> nat {
    253_402_300_799
}

/// Three fixed-width numbers joined by separators.
spec fn fields3(a: nat, wa: nat, s1: char, b: nat, wb: nat, s2: char, c: nat, wc: nat) -> Seq<char> {
    digits(a, wa) + seq![s1] + digits(b, wb) + seq![s2] + digits(c, wc)
}

/// Three fields in lexicographic order give text in order.
proof fn lemma_fields3_order(
    a1: nat,
    b1: nat,
    c1: nat,
    a2: nat,
    b2: nat,
    c2: nat,
    wa: nat,
    wb: nat,
    wc: nat,
    s1: char,
    s2: char,
)
    requires
        a1 < pow10(wa) && a2 < pow10(wa),
        b1 < pow10(wb) && b2 < pow10(wb),
        c1 < pow10(wc) && c2 < pow10(wc),
        a1 < a2 || (a1 == a2 && b1 < b2) || (a1 == a2 && b1 == b2 && c1 < c2),
    ensures
        lex_lt(fields3(a1, wa, s1, b1, wb, s2, c1, wc), fields3(a2, wa, s1, b2, wb, s2, c2, wc)),
{
    lemma_digits_len(a1, wa);
    lemma_digits_len(a2, wa);
    lemma_digits_len(b1, wb);
    lemma_digits_len(b2, wb);
    let f1 = fields3(a1, wa, s1, b1, wb, s2, c1, wc);
    let f2 = fields3(a2, wa, s1, b2, wb, s2, c2, wc);
    if a1 < a2 {
        lemma_digits_order(a1, a2, wa);
        let r1 = seq![s1] + digits(b1, wb) + seq![s2] + digits(c1, wc);
        let r2 = seq![s1] + digits(b2, wb) + seq![s2] + digits(c2, wc);
        lemma_lex_extend(digits(a1, wa), digits(a2, wa), r1, r2);
        assert(f1 =~= digits(a1, wa) + r1);
        assert(f2 =~= digits(a2, wa) + r2);
    } else if b1 < b2 {
        lemma_digits_order(b1, b2, wb);
        let p = digits(a1, wa) + seq![s1];
        let r1 = seq![s2] + digits(c1, wc);
        let r2 = seq![s2] + digits(c2, wc);
        lemma_lex_extend(digits(b1, wb), digits(b2, wb), r1, r2);
        lemma_lex_prefix(p, digits(b1, wb) + r1, digits(b2, wb) + r2);
        assert(f1 =~= p + (digits(b1, wb) + r1));
        assert(f2 =~= p + (digits(b2, wb) + r2));
    } else {
        lemma_digits_order(c1, c2, wc);
        let p = digits(a1, wa) + seq![s1] + digits(b1, wb) + seq![s2];
        lemma_lex_prefix(p, digits(c1, wc), digits(c2, wc));
        assert(f1 =~= p + digits(c1, wc));
        assert(f2 =~= p + digits(c2, wc));
    }
}

/// The date of a day up to the end of year 9999, as fixed-width fields.
proof fn lemma_date_fields(z: int)
    requires
        0 <= z <= 2_932_896,
    ensures
        ({
            let c = civil_from_days_spec(z);
            &&& 0 <= c.0 <= 9999
            &&& 1 <= c.1 <= 12
            &&& 1 <= c.2 <= 31
            &&& iso_date_spec(c.0, c.1, c.2) == fields3(
                c.0 as nat,
                4,
                '-',
                c.1 as nat,
                2,
                '-',
                c.2 as nat,
                2,
            )
        }),
{
    let c = civil_from_days_spec(z);
    lemma_civil_serial(z);
    lemma_civil_serial(2_932_896);
    // 9999-12-31
    assert(3_652_364int / 146_097 == 24);
    assert(146_036int / 1460 == 100 && 146_036int / 36_524 == 3 && 146_036int / 146_096 == 0);
    assert(145_939int / 365 == 399);
    assert(1527int / 153 == 9 && 1379int / 5 == 275);
    assert(civil_from_days_spec(2_932_896) == (9999int, 12int, 31int));
    if z < 2_932_896 {
        lemma_days_in_order(z, 2_932_896);
    }
    // the ranges of a civil date
    let zz = z + 719_468;
    let era = zz / 146_097;
    assert(0 <= zz - era * 146_097 < 146_097 && era >= 0) by (nonlinear_arith)
        requires
            era == zz / 146_097,
            zz >= 0,
    ;
    let doe = zz - era * 146_097;
    lemma_doy_range(doe);
    let yoe = (doe - doe / 1460 + doe / 36_524 - doe / 146_096) / 365;
    lemma_day_range(doe - (365 * yoe + yoe / 4 - yoe / 100));
    assert(0 <= c.0);
    assert(c.0 <= 9999);
    reveal_with_fuel(pow10, 5);
    lemma_dec_pad_digits(c.0 as nat, 4);
    lemma_dec_pad_digits(c.1 as nat, 2);
    lemma_dec_pad_digits(c.2 as nat, 2);
}

/// Dates sort as days: an earlier day's date sorts first, and two instants
/// of one day have the same date (up to the end of year 9999).
pub proof fn lemma_dates_in_time_order(a: nat, b: nat)
    requires
        a <= b <= last_four_digit_second(),
    ensures
        a / 86_400 < b / 86_400 ==> lex_lt(unix_to_date_spec(a), unix_to_date_spec(b)),
        a / 86_400 == b / 86_400 ==> unix_to_date_spec(a) == unix_to_date_spec(b),
{
    let za = (a / 86_400) as int;
    let zb = (b / 86_400) as int;
    assert(za <= zb <= 2_932_896);
    lemma_date_fields(za);
    lemma_date_fields(zb);
    if za < zb {
        let ca = civil_from_days_spec(za);
        let cb = civil_from_days_spec(zb);
        lemma_days_in_order(za, zb);
        lemma_civil_serial(za);
        lemma_civil_serial(zb);
        reveal_with_fuel(pow10, 5);
        lemma_fields3_order(
            ca.0 as nat,
            ca.1 as nat,
            ca.2 as nat,
            cb.0 as nat,
            cb.1 as nat,
            cb.2 as nat,
            4,
            2,
            2,
            '-',
            '-',
        );
    }
}

/// The `THH:MM:SSZ` part of a timestamp, for a second of the day.
spec fn time_part(r: nat) -> Seq<char> {
    seq!['T'] + dec_pad(r / 3600, 2) + seq![':'] + dec_pad((r % 3600) / 60, 2) + seq![':'] + dec_pad(
        r % 60,
        2,
    ) + seq!['Z']
}

/// Within one day, the earlier second's time text sorts first; both have
/// the same length.
proof fn lemma_time_part_order(ra: nat, rb: nat)
    requires
        ra < rb < 86_400,
    ensures
        lex_lt(time_part(ra), time_part(rb)),
        time_part(ra).len() == time_part(rb).len(),
{
    reveal_with_fuel(pow10, 5);
    let (ha, ma, sa) = (ra / 3600, (ra % 3600) / 60, ra % 60);
    let (hb, mb, sb) = (rb / 3600, (rb % 3600) / 60, rb % 60);
    assert(ha < 24 && ma < 60 && sa < 60);
    assert(hb < 24 && mb < 60 && sb < 60);
    lemma_dec_pad_digits(ha, 2);
    lemma_dec_pad_digits(ma, 2);
    lemma_dec_pad_digits(sa, 2);
    lemma_dec_pad_digits(hb, 2);
    lemma_dec_pad_digits(mb, 2);
    lemma_dec_pad_digits(sb, 2);
    assert(ha < hb || (ha == hb && ma < mb) || (ha == hb && ma == mb && sa < sb)) by (nonlinear_arith)
        requires
            ra < rb,
            ha == ra / 3600,
            ma == (ra % 3600) / 60,
            sa == ra % 60,
            hb == rb / 3600,
            mb == (rb % 3600) / 60,
            sb == rb % 60,
    ;
    lemma_fields3_order(ha, ma, sa, hb, mb, sb, 2, 2, 2, ':', ':');
    let fa = fields3(ha, 2, ':', ma, 2, ':', sa, 2);
    let fb = fields3(hb, 2, ':', mb, 2, ':', sb, 2);
    lemma_digits_len(ha, 2);
    lemma_digits_len(ma, 2);
    lemma_digits_len(sa, 2);
    lemma_digits_len(hb, 2);
    lemma_digits_len(mb, 2);
    lemma_digits_len(sb, 2);
    lemma_lex_extend(fa, fb, seq!['Z'], seq!['Z']);
    lemma_lex_prefix(seq!['T'], fa + seq!['Z'], fb + seq!['Z']);
    assert(time_part(ra) =~= seq!['T'] + (fa + seq!['Z']));
    assert(time_part(rb) =~= seq!['T'] + (fb + seq!['Z']));
}

/// The time text of any second of the day has the same length.
proof fn lemma_time_part_len(r: nat)
    requires
        r < 86_400,
    ensures
        time_part(r).len() == 10,
{
    reveal_with_fuel(pow10, 5);
    assert(r / 3600 < 24 && (r % 3600) / 60 < 60 && r % 60 < 60);
    lemma_dec_pad_digits(r / 3600, 2);
    lemma_dec_pad_digits((r % 3600) / 60, 2);
    lemma_dec_pad_digits(r % 60, 2);
    lemma_digits_len(r / 3600, 2);
    lemma_digits_len((r % 3600) / 60, 2);
    lemma_digits_len(r % 60, 2);
    assert(time_part(r).len() == 10);
}

/// Timestamps sort as the instants they name: of two instants up to the
/// end of year 9999, the earlier one's ISO 8601 text sorts first. Index
/// queries compare dates as text because of this.
#[verifier::spinoff_prover]
pub proof fn lemma_timestamps_in_time_order(a: nat, b: nat)
    requires
        a < b <= last_four_digit_second(),
    ensures
        lex_lt(unix_to_iso_spec(a), unix_to_iso_spec(b)),
{
    lemma_dates_in_time_order(a, b);
    let za = (a / 86_400) as int;
    let zb = (b / 86_400) as int;
    lemma_date_fields(za);
    lemma_date_fields(zb);
    let ra = a % 86_400;
    let rb = b % 86_400;
    let ta = time_part(ra);
    let tb = time_part(rb);
    let ca = civil_from_days_spec(za);
    let cb = civil_from_days_spec(zb);
    let da = iso_date_spec(ca.0, ca.1, ca.2);
    let db = iso_date_spec(cb.0, cb.1, cb.2);
    assert(unix_to_iso_spec(a) =~= da + ta);
    assert(unix_to_iso_spec(b) =~= db + tb);
    lemma_digits_len(ca.0 as nat, 4);
    lemma_digits_len(ca.1 as nat, 2);
    lemma_digits_len(ca.2 as nat, 2);
    lemma_digits_len(cb.0 as nat, 4);
    lemma_digits_len(cb.1 as nat, 2);
    lemma_digits_len(cb.2 as nat, 2);
    if za < zb {
        lemma_time_part_len(ra);
        lemma_time_part_len(rb);
        lemma_lex_extend(da, db, ta, tb);
    } else {
        assert(za == zb);
        assert(ra < rb);
        lemma_time_part_order(ra, rb);
        lemma_lex_prefix(da, ta, tb);
    }
}

/// Up to the end of year 9999 a timestamp is 20 characters long and
/// begins with the date of its second.
pub proof fn lemma_timestamp_shape(secs: nat)
    requires
        secs <= last_four_digit_second(),
    ensures
        unix_to_iso_spec(secs).len() == 20,
        unix_to_date_spec(secs) == unix_to_iso_spec(secs).take(10),
{
    let z = (secs / 86_400) as int;
    assert(0 <= z <= 2_932_896);
    lemma_date_fields(z);
    let c = civil_from_days_spec(z);
    lemma_digits_len(c.0 as nat, 4);
    lemma_digits_len(c.1 as nat, 2);
    lemma_digits_len(c.2 as nat, 2);
    let d = unix_to_date_spec(secs);
    let r = secs % 86_400;
    lemma_time_part_len(r);
    assert(d.len() == 10);
    assert(unix_to_iso_spec(secs) =~= d + time_part(r));
    assert((d + time_part(r)).take(10) =~= d);
}

/// Seconds since the Unix epoch on the system clock, 0 if the clock is
/// before the epoch (`SystemTime::now` and `duration_since`). Nothing is
/// promised about the value: it is the machine's clock.
#[verifier::external_body]
fn system_unix_secs() -> u64 {
    std::time::SystemTime::now().duration_since(std::time::UNIX_EPOCH).map(|d| d.as_secs()).unwrap_or(0)
}

/// Today's date `YYYY-MM-DD` (UTC) on the system clock.
pub fn today_iso() -> (s: String)
    ensures
        exists|secs: u64| s@ == unix_to_date_spec(secs as nat),
{
    let secs = system_unix_secs();
    unix_to_date(secs)
}

/// The current instant as an ISO 8601 UTC timestamp.
pub fn now_iso() -> (s: String)
    ensures
        exists|secs: u64| s@ == unix_to_iso_spec(secs as nat),
{
    let secs = system_unix_secs();
    unix_to_iso(secs)
}

} // verus!
