//! The two text renderings: a duration as a human-readable string of
//! unit segments, and a Unix timestamp as an RFC 3339 / ISO 8601
//! date-time string in UTC.

use vstd::prelude::*;
use vstd::string::StringExecFns;
use vstd::arithmetic::div_mod::{
    lemma_breakdown,
    lemma_div_is_ordered,
    lemma_div_pos_is_pos,
    lemma_fundamental_div_mod,
    lemma_fundamental_div_mod_converse,
    lemma_mod_bound,
    lemma_mod_mod,
};
use crate::calendar::{
    is_leap_year,
    leap_year,
    month_and_day_of_month,
    month_from_day_of_year,
    year_and_day_of_year,
    year_from_days,
};
use crate::digits::{
    dec_digits,
    digit_char,
    four_digits,
    is_digit_char,
    lemma_dec_digits_are_digits,
    lemma_dec_digits_len,
    push_2digits,
    push_4digits,
    push_u64,
    two_digits,
};

verus! {

/// The last second of year 9999 (9999-12-31T23:59:59Z), the largest
/// timestamp whose date-time string is defined.
pub const MAX_TIMESTAMP: u64 = 253_402_300_799;

/// One more unit segment appended to an already rendered prefix: a
/// separating space when something was rendered before, the decimal
/// value, the unit abbreviation, and a plural `s` when asked for and
/// the value exceeds one. A zero value adds nothing.
pub open spec fn unit_append(acc: Seq<char>, value: int, unit: Seq<char>, plural: bool) -> Seq<
    char,
> {
    if value <= 0 {
        acc
    } else {
        let sep: Seq<char> = if acc.len() > 0 {
            seq![' ']
        } else {
            Seq::empty()
        };
        let pl: Seq<char> = if plural && value > 1 {
            seq!['s']
        } else {
            Seq::empty()
        };
        acc + sep + dec_digits(value) + unit + pl
    }
}

/// The human-readable rendering of a duration of `secs` seconds and
/// `nanos` nanoseconds: unit segments from largest (years of 365.25
/// days, months of 30.44 days) to smallest (nanoseconds), zero-valued
/// units omitted, and the zero duration rendered as `0s`.
pub open spec fn duration_chars(secs: int, nanos: int) -> Seq<char> {
    if secs == 0 && nanos == 0 {
        seq!['0', 's']
    } else {
        let years = secs / 31_557_600;
        let ydays = secs % 31_557_600;
        let months = ydays / 2_630_016;
        let mdays = ydays % 2_630_016;
        let days = mdays / 86400;
        let day_secs = mdays % 86400;
        let hours = day_secs / 3600;
        let minutes = day_secs % 3600 / 60;
        let seconds = day_secs % 60;
        let millis = nanos / 1_000_000;
        let micros = nanos / 1000 % 1000;
        let nanosec = nanos % 1000;
        let a1 = unit_append(Seq::empty(), years, seq!['y', 'e', 'a', 'r'], true);
        let a2 = unit_append(a1, months, seq!['m', 'o', 'n', 't', 'h'], true);
        let a3 = unit_append(a2, days, seq!['d', 'a', 'y'], true);
        let a4 = unit_append(a3, hours, seq!['h'], false);
        let a5 = unit_append(a4, minutes, seq!['m'], false);
        let a6 = unit_append(a5, seconds, seq!['s'], false);
        let a7 = unit_append(a6, millis, seq!['m', 's'], false);
        let a8 = unit_append(a7, micros, seq!['u', 's'], false);
        unit_append(a8, nanosec, seq!['n', 's'], false)
    }
}

/// The RFC 3339 rendering of timestamp `t` in UTC:
/// `YYYY-MM-DDTHH:MM:SSZ`.
pub open spec fn iso_chars(t: int) -> Seq<char> {
    let days = t / 86400;
    let sod = t % 86400;
    let yd = year_and_day_of_year(1970, days);
    let md = month_and_day_of_month(is_leap_year(yd.0), 1, yd.1);
    four_digits(yd.0) + seq!['-'] + two_digits(md.0) + seq!['-'] + two_digits(md.1 + 1)
        + seq!['T'] + two_digits(sod / 3600) + seq![':'] + two_digits(sod % 3600 / 60)
        + seq![':'] + two_digits(sod % 60) + seq!['Z']
}

/// Appends one unit segment to `out` as `unit_append` describes.
fn append_unit(out: &mut String, value: u64, unit: &str, plural: bool)
    ensures
        final(out)@ == unit_append(old(out)@, value as int, unit@, plural),
{
    if value > 0 {
        if !out.as_str().is_empty() {
            out.append(" ");
        }
        push_u64(out, value);
        out.append(unit);
        if plural && value > 1 {
            out.append("s");
        }
        proof {
            reveal_strlit(" ");
            reveal_strlit("s");
            assert(out@ =~= unit_append(old(out)@, value as int, unit@, plural));
        }
    }
}

/// Renders a duration of `secs` whole seconds and `nanos` sub-second
/// nanoseconds as a human-readable string, largest unit first.
pub fn duration_to_humatime(secs: u64, nanos: u32) -> (r: String)
    requires
        nanos < 1_000_000_000,
    ensures
        r@ == duration_chars(secs as int, nanos as int),
{
    let mut out = String::new();
    if secs == 0 && nanos == 0 {
        out.append("0s");
        proof {
            reveal_strlit("0s");
            assert(out@ =~= duration_chars(secs as int, nanos as int));
        }
        return out;
    }
    let years = secs / 31_557_600;
    let ydays = secs % 31_557_600;
    let months = ydays / 2_630_016;
    let mdays = ydays % 2_630_016;
    let days = mdays / 86400;
    let day_secs = mdays % 86400;
    let hours = day_secs / 3600;
    let minutes = day_secs % 3600 / 60;
    let seconds = day_secs % 60;
    let millis = nanos / 1_000_000;
    let micros = nanos / 1000 % 1000;
    let nanosec = nanos % 1000;
    append_unit(&mut out, years, "year", true);
    append_unit(&mut out, months, "month", true);
    append_unit(&mut out, days, "day", true);
    append_unit(&mut out, hours, "h", false);
    append_unit(&mut out, minutes, "m", false);
    append_unit(&mut out, seconds, "s", false);
    append_unit(&mut out, millis as u64, "ms", false);
    append_unit(&mut out, micros as u64, "us", false);
    append_unit(&mut out, nanosec as u64, "ns", false);
    proof {
        reveal_strlit("year");
        reveal_strlit("month");
        reveal_strlit("day");
        reveal_strlit("h");
        reveal_strlit("m");
        reveal_strlit("s");
        reveal_strlit("ms");
        reveal_strlit("us");
        reveal_strlit("ns");
        assert(("year")@ =~= seq!['y', 'e', 'a', 'r']);
        assert(("month")@ =~= seq!['m', 'o', 'n', 't', 'h']);
        assert(("day")@ =~= seq!['d', 'a', 'y']);
        assert(("h")@ =~= seq!['h']);
        assert(("m")@ =~= seq!['m']);
        assert(("s")@ =~= seq!['s']);
        assert(("ms")@ =~= seq!['m', 's']);
        assert(("us")@ =~= seq!['u', 's']);
        assert(("ns")@ =~= seq!['n', 's']);
        assert(out@ == duration_chars(secs as int, nanos as int));
    }
    out
}

/// Renders the timestamp `stamp` (seconds since the Unix epoch) as an
/// RFC 3339 date-time string in UTC.
pub fn timestamp_to_iso(stamp: u64) -> (r: String)
    requires
        stamp <= MAX_TIMESTAMP,
    ensures
        r@ == iso_chars(stamp as int),
{
    proof {
        lemma_fundamental_div_mod_converse(MAX_TIMESTAMP as int, 86400, 2932896, 86399);
        lemma_div_is_ordered(stamp as int, MAX_TIMESTAMP as int, 86400);
        lemma_mod_bound(stamp as int, 86400);
    }
    let days = stamp / 86400;
    let sod = stamp % 86400;
    proof {
        lemma_fundamental_div_mod_converse(86399, 3600, 23, 3599);
        lemma_div_is_ordered(sod as int, 86399, 3600);
        lemma_mod_bound(sod as int, 3600);
        lemma_fundamental_div_mod_converse(3599, 60, 59, 59);
        lemma_div_is_ordered(sod as int % 3600, 3599, 60);
        lemma_mod_bound(sod as int, 60);
    }
    let (y, doy) = year_from_days(days);
    let leap = leap_year(y);
    let (mon, day) = month_from_day_of_year(leap, doy);
    let hours = sod / 3600;
    let minutes = sod % 3600 / 60;
    let seconds = sod % 60;
    let mut out = String::new();
    push_4digits(&mut out, y);
    out.append("-");
    push_2digits(&mut out, mon);
    out.append("-");
    push_2digits(&mut out, day);
    out.append("T");
    push_2digits(&mut out, hours);
    out.append(":");
    push_2digits(&mut out, minutes);
    out.append(":");
    push_2digits(&mut out, seconds);
    out.append("Z");
    proof {
        reveal_strlit("-");
        reveal_strlit("T");
        reveal_strlit(":");
        reveal_strlit("Z");
        assert(("-")@ =~= seq!['-']);
        assert(("T")@ =~= seq!['T']);
        assert((":")@ =~= seq![':']);
        assert(("Z")@ =~= seq!['Z']);
        assert(out@ =~= iso_chars(stamp as int));
    }
    out
}

/// Carries whole seconds out of a nanosecond count, as the standard
/// duration constructor does, so that the remainder is a valid
/// sub-second count. `None` exactly when the carry overflows `u64`.
pub fn normalize_duration(secs: u64, nanos: u32) -> (r: Option<(u64, u32)>)
    ensures
        match r {
            Some(p) => p.1 < 1_000_000_000 && (p.0 as int) * 1_000_000_000 + p.1 as int == (
            secs as int) * 1_000_000_000 + nanos as int,
            None => secs as int + nanos as int / 1_000_000_000 > u64::MAX,
        },
{
    let extra = (nanos / 1_000_000_000) as u64;
    match secs.checked_add(extra) {
        Some(s2) => {
            proof {
                lemma_fundamental_div_mod(nanos as int, 1_000_000_000);
            }
            Some((s2, nanos % 1_000_000_000))
        },
        None => None,
    }
}

/// A positive seconds count keeps at least one of its six unit values
/// positive: they reassemble the count they were split from.
proof fn lemma_secs_units_not_all_zero(secs: int)
    requires
        secs > 0,
    ensures
        secs / 31_557_600 > 0 || secs % 31_557_600 / 2_630_016 > 0 || secs % 31_557_600
            % 2_630_016 / 86400 > 0 || secs % 31_557_600 % 2_630_016 % 86400 / 3600 > 0 || secs
            % 31_557_600 % 2_630_016 % 86400 % 3600 / 60 > 0 || secs % 31_557_600 % 2_630_016
            % 86400 % 60 > 0,
{
    let ydays = secs % 31_557_600;
    let mdays = ydays % 2_630_016;
    let day_secs = mdays % 86400;
    if secs / 31_557_600 <= 0 && ydays / 2_630_016 <= 0 && mdays / 86400 <= 0 && day_secs / 3600
        <= 0 && day_secs % 3600 / 60 <= 0 && day_secs % 60 <= 0 {
        lemma_div_pos_is_pos(secs, 31_557_600);
        lemma_mod_bound(secs, 31_557_600);
        lemma_div_pos_is_pos(ydays, 2_630_016);
        lemma_mod_bound(ydays, 2_630_016);
        lemma_div_pos_is_pos(mdays, 86400);
        lemma_mod_bound(mdays, 86400);
        lemma_div_pos_is_pos(day_secs, 3600);
        lemma_mod_bound(day_secs, 3600);
        lemma_div_pos_is_pos(day_secs % 3600, 60);
        lemma_fundamental_div_mod(secs, 31_557_600);
        assert(secs == ydays);
        lemma_fundamental_div_mod(ydays, 2_630_016);
        assert(ydays == mdays);
        lemma_fundamental_div_mod(mdays, 86400);
        assert(mdays == day_secs);
        lemma_fundamental_div_mod(day_secs, 3600);
        assert(day_secs == day_secs % 3600);
        lemma_fundamental_div_mod(day_secs % 3600, 60);
        lemma_mod_mod(day_secs, 60, 60);
        lemma_mod_bound(day_secs, 60);
        assert(day_secs % 3600 == day_secs % 60);
        assert(false);
    }
}

/// A positive nanoseconds count keeps at least one of its three unit
/// values positive: they reassemble the count they were split from.
proof fn lemma_nanos_units_not_all_zero(nanos: int)
    requires
        nanos > 0,
    ensures
        nanos / 1_000_000 > 0 || nanos / 1000 % 1000 > 0 || nanos % 1000 > 0,
{
    if nanos / 1_000_000 <= 0 && nanos / 1000 % 1000 <= 0 && nanos % 1000 <= 0 {
        lemma_div_pos_is_pos(nanos, 1_000_000);
        lemma_div_pos_is_pos(nanos, 1000);
        lemma_mod_bound(nanos / 1000, 1000);
        lemma_fundamental_div_mod(nanos, 1_000_000);
        assert(nanos == nanos % 1_000_000);
        lemma_breakdown(nanos, 1000, 1000);
        lemma_mod_bound(nanos, 1000);
        assert(nanos % 1_000_000 == 1000 * (nanos / 1000 % 1000) + nanos % 1000);
        assert(false);
    }
}

/// A rendered duration is never the empty string, and it is the zero
/// rendering `0s` exactly when the duration is zero; positive unit
/// values appear largest to smallest and zero values are omitted, as
/// `duration_chars` lays down.
#[verifier::rlimit(100)]
pub proof fn lemma_duration_chars_nonempty(secs: int, nanos: int)
    requires
        secs >= 0,
        0 <= nanos < 1_000_000_000,
    ensures
        duration_chars(secs, nanos).len() > 0,
        (secs == 0 && nanos == 0) ==> duration_chars(secs, nanos) == seq!['0', 's'],
{
    if secs == 0 && nanos == 0 {
    } else {
        let years = secs / 31_557_600;
        let ydays = secs % 31_557_600;
        let months = ydays / 2_630_016;
        let mdays = ydays % 2_630_016;
        let days = mdays / 86400;
        let day_secs = mdays % 86400;
        let hours = day_secs / 3600;
        let minutes = day_secs % 3600 / 60;
        let seconds = day_secs % 60;
        let millis = nanos / 1_000_000;
        let micros = nanos / 1000 % 1000;
        let nanosec = nanos % 1000;
        if secs > 0 {
            lemma_secs_units_not_all_zero(secs);
        }
        if nanos > 0 {
            lemma_nanos_units_not_all_zero(nanos);
        }
        assert(years > 0 || months > 0 || days > 0 || hours > 0 || minutes > 0 || seconds > 0
            || millis > 0 || micros > 0 || nanosec > 0);
        let a1 = unit_append(Seq::empty(), years, seq!['y', 'e', 'a', 'r'], true);
        let a2 = unit_append(a1, months, seq!['m', 'o', 'n', 't', 'h'], true);
        let a3 = unit_append(a2, days, seq!['d', 'a', 'y'], true);
        let a4 = unit_append(a3, hours, seq!['h'], false);
        let a5 = unit_append(a4, minutes, seq!['m'], false);
        let a6 = unit_append(a5, seconds, seq!['s'], false);
        let a7 = unit_append(a6, millis, seq!['m', 's'], false);
        let a8 = unit_append(a7, micros, seq!['u', 's'], false);
        let a9 = unit_append(a8, nanosec, seq!['n', 's'], false);
        lemma_dec_digits_len(years);
        lemma_dec_digits_len(months);
        lemma_dec_digits_len(days);
        lemma_dec_digits_len(hours);
        lemma_dec_digits_len(minutes);
        lemma_dec_digits_len(seconds);
        lemma_dec_digits_len(millis);
        lemma_dec_digits_len(micros);
        lemma_dec_digits_len(nanosec);
        assert(years > 0 ==> a1.len() > 0);
        assert(months > 0 ==> a2.len() > 0);
        assert(days > 0 ==> a3.len() > 0);
        assert(hours > 0 ==> a4.len() > 0);
        assert(minutes > 0 ==> a5.len() > 0);
        assert(seconds > 0 ==> a6.len() > 0);
        assert(millis > 0 ==> a7.len() > 0);
        assert(micros > 0 ==> a8.len() > 0);
        assert(nanosec > 0 ==> a9.len() > 0);
        assert(a2.len() >= a1.len());
        assert(a3.len() >= a2.len());
        assert(a4.len() >= a3.len());
        assert(a5.len() >= a4.len());
        assert(a6.len() >= a5.len());
        assert(a7.len() >= a6.len());
        assert(a8.len() >= a7.len());
        assert(a9.len() >= a8.len());
        assert(a9.len() > 0);
    }
}

/// The characters that can appear in a rendered duration: decimal
/// digits, the separating space, and the letters of the recognized
/// unit abbreviations (`year`, `month`, `day`, `h`, `m`, `s`, `ms`,
/// `us`, `ns`, with their plural `s`).
pub open spec fn is_duration_char(c: char) -> bool {
    is_digit_char(c) || c == ' ' || c == 'y' || c == 'e' || c == 'a' || c == 'r' || c == 'm'
        || c == 'o' || c == 'n' || c == 't' || c == 'h' || c == 'd' || c == 's' || c == 'u'
}

/// Appending a unit segment keeps every character within the duration
/// alphabet, provided the prefix and the unit abbreviation lie in it.
proof fn lemma_unit_append_chars(acc: Seq<char>, value: int, unit: Seq<char>, plural: bool)
    requires
        forall|i: int| 0 <= i < acc.len() ==> is_duration_char(#[trigger] acc[i]),
        forall|i: int| 0 <= i < unit.len() ==> is_duration_char(#[trigger] unit[i]),
    ensures
        forall|i: int|
            0 <= i < unit_append(acc, value, unit, plural).len() ==> is_duration_char(
                #[trigger] unit_append(acc, value, unit, plural)[i],
            ),
{
    if value > 0 {
        lemma_dec_digits_are_digits(value);
        let sep: Seq<char> = if acc.len() > 0 {
            seq![' ']
        } else {
            Seq::empty()
        };
        let pl: Seq<char> = if plural && value > 1 {
            seq!['s']
        } else {
            Seq::empty()
        };
        let r = unit_append(acc, value, unit, plural);
        assert forall|i: int| 0 <= i < r.len() implies is_duration_char(r[i]) by {
            let n1 = acc.len() as int;
            let n2 = n1 + sep.len();
            let n3 = n2 + dec_digits(value).len();
            let n4 = n3 + unit.len();
            if i < n1 {
                assert(r[i] == acc[i]);
            } else if i < n2 {
                assert(r[i] == ' ');
            } else if i < n3 {
                assert(r[i] == dec_digits(value)[i - n2]);
            } else if i < n4 {
                assert(r[i] == unit[i - n3]);
            } else {
                assert(r[i] == 's');
            }
        }
    }
}

/// Every character of a rendered duration is a decimal digit, a
/// separating space, or a letter of one of the recognized unit
/// abbreviations.
pub proof fn lemma_duration_chars_alphabet(secs: int, nanos: int)
    requires
        secs >= 0,
        nanos >= 0,
    ensures
        forall|i: int|
            0 <= i < duration_chars(secs, nanos).len() ==> is_duration_char(
                #[trigger] duration_chars(secs, nanos)[i],
            ),
{
    if secs == 0 && nanos == 0 {
    } else {
        let years = secs / 31_557_600;
        let ydays = secs % 31_557_600;
        let months = ydays / 2_630_016;
        let mdays = ydays % 2_630_016;
        let days = mdays / 86400;
        let day_secs = mdays % 86400;
        let hours = day_secs / 3600;
        let minutes = day_secs % 3600 / 60;
        let seconds = day_secs % 60;
        let millis = nanos / 1_000_000;
        let micros = nanos / 1000 % 1000;
        let nanosec = nanos % 1000;
        let a1 = unit_append(Seq::empty(), years, seq!['y', 'e', 'a', 'r'], true);
        let a2 = unit_append(a1, months, seq!['m', 'o', 'n', 't', 'h'], true);
        let a3 = unit_append(a2, days, seq!['d', 'a', 'y'], true);
        let a4 = unit_append(a3, hours, seq!['h'], false);
        let a5 = unit_append(a4, minutes, seq!['m'], false);
        let a6 = unit_append(a5, seconds, seq!['s'], false);
        let a7 = unit_append(a6, millis, seq!['m', 's'], false);
        let a8 = unit_append(a7, micros, seq!['u', 's'], false);
        lemma_unit_append_chars(Seq::empty(), years, seq!['y', 'e', 'a', 'r'], true);
        lemma_unit_append_chars(a1, months, seq!['m', 'o', 'n', 't', 'h'], true);
        lemma_unit_append_chars(a2, days, seq!['d', 'a', 'y'], true);
        lemma_unit_append_chars(a3, hours, seq!['h'], false);
        lemma_unit_append_chars(a4, minutes, seq!['m'], false);
        lemma_unit_append_chars(a5, seconds, seq!['s'], false);
        lemma_unit_append_chars(a6, millis, seq!['m', 's'], false);
        lemma_unit_append_chars(a7, micros, seq!['u', 's'], false);
        lemma_unit_append_chars(a8, nanosec, seq!['n', 's'], false);
    }
}

/// A date-time rendering always matches the fixed twenty-character
/// pattern `YYYY-MM-DDTHH:MM:SSZ`: digits in the date and time fields
/// and the literal separators at their fixed places.
pub proof fn lemma_iso_chars_shape(t: int)
    requires
        0 <= t <= MAX_TIMESTAMP,
    ensures
        iso_chars(t).len() == 20,
        iso_chars(t)[4] == '-',
        iso_chars(t)[7] == '-',
        iso_chars(t)[10] == 'T',
        iso_chars(t)[13] == ':',
        iso_chars(t)[16] == ':',
        iso_chars(t)[19] == 'Z',
        forall|i: int|
            0 <= i < 20 && i != 4 && i != 7 && i != 10 && i != 13 && i != 16 && i != 19
                ==> is_digit_char(iso_chars(t)[i]),
{
    let days = t / 86400;
    let sod = t % 86400;
    let yd = year_and_day_of_year(1970, days);
    let md = month_and_day_of_month(is_leap_year(yd.0), 1, yd.1);
    let s = iso_chars(t);
    let full = seq![
        digit_char(yd.0 / 1000),
        digit_char(yd.0 / 100 % 10),
        digit_char(yd.0 / 10 % 10),
        digit_char(yd.0 % 10),
        '-',
        digit_char(md.0 / 10),
        digit_char(md.0 % 10),
        '-',
        digit_char((md.1 + 1) / 10),
        digit_char((md.1 + 1) % 10),
        'T',
        digit_char(sod / 3600 / 10),
        digit_char(sod / 3600 % 10),
        ':',
        digit_char(sod % 3600 / 60 / 10),
        digit_char(sod % 3600 / 60 % 10),
        ':',
        digit_char(sod % 60 / 10),
        digit_char(sod % 60 % 10),
        'Z',
    ];
    assert(s =~= full);
    assert forall|i: int|
        0 <= i < 20 && i != 4 && i != 7 && i != 10 && i != 13 && i != 16 && i != 19
            implies is_digit_char(s[i]) by {
        assert(s[i] == full[i]);
    }
}

} // verus!
