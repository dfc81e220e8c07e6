//! Plain-value models of dates, times, timestamps, intervals and network
//! addresses, with their canonical texts and strict parsers.

use vstd::prelude::*;

use crate::decimal::zero_pad;
use crate::digits::{all_dec_digits, dec_digits, digits_val, hex_fixed, int_digits,
    parse_u128_range, u128_to_hex_fixed, u128_to_string};

verus! {

/// A calendar date.
#[derive(Clone, Copy, PartialEq, Eq, Structural, Debug)]
pub struct Date {
    pub year: u16,
    pub month: u8,
    pub day: u8,
}

/// A time of day, to whole seconds.
#[derive(Clone, Copy, PartialEq, Eq, Structural, Debug)]
pub struct Time {
    pub hour: u8,
    pub minute: u8,
    pub second: u8,
}

/// A calendar date with a time of day.
#[derive(Clone, Copy, PartialEq, Eq, Structural, Debug)]
pub struct Timestamp {
    pub date: Date,
    pub time: Time,
}

/// A duration: whole months or microseconds, the two never mixed.
#[derive(Clone, Copy, PartialEq, Eq, Structural, Debug)]
pub enum Interval {
    Month(i32),
    Microsecond(i64),
}

/// A network address as plain numbers.
#[derive(Clone, Copy, PartialEq, Eq, Structural, Debug)]
pub enum Inet {
    V4(u32),
    V6(u128),
}

pub open spec fn is_leap_year(y: int) -> bool {
    y % 4 == 0 && (y % 100 != 0 || y % 400 == 0)
}

pub open spec fn days_in_month(y: int, m: int) -> int {
    if m == 2 {
        if is_leap_year(y) {
            29
        } else {
            28
        }
    } else if m == 4 || m == 6 || m == 9 || m == 11 {
        30
    } else {
        31
    }
}

/// A valid date of the four-digit-year calendar.
pub open spec fn date_wf(d: Date) -> bool {
    &&& d.year <= 9999
    &&& 1 <= d.month <= 12
    &&& 1 <= d.day <= days_in_month(d.year as int, d.month as int)
}

pub open spec fn time_wf(t: Time) -> bool {
    t.hour <= 23 && t.minute <= 59 && t.second <= 59
}

pub open spec fn timestamp_wf(t: Timestamp) -> bool {
    date_wf(t.date) && time_wf(t.time)
}

/// Whether a date is valid, decided executably.
pub fn check_date_wf(d: &Date) -> (r: bool)
    ensures
        r == date_wf(*d),
{
    let dim: u8 = if d.month == 2 {
        if (d.year % 4 == 0) && (d.year % 100 != 0 || d.year % 400 == 0) {
            29
        } else {
            28
        }
    } else if d.month == 4 || d.month == 6 || d.month == 9 || d.month == 11 {
        30
    } else {
        31
    };
    d.year <= 9999 && 1 <= d.month && d.month <= 12 && 1 <= d.day && d.day <= dim
}

pub fn check_time_wf(t: &Time) -> (r: bool)
    ensures
        r == time_wf(*t),
{
    t.hour <= 23 && t.minute <= 59 && t.second <= 59
}

/// Canonical date text: `YYYY-MM-DD`.
pub open spec fn date_str(d: Date) -> Seq<char> {
    zero_pad(dec_digits(d.year as nat), 4) + seq!['-'] + zero_pad(dec_digits(d.month as nat), 2)
        + seq!['-'] + zero_pad(dec_digits(d.day as nat), 2)
}

/// Canonical time text: `HH:MM:SS`.
pub open spec fn time_str(t: Time) -> Seq<char> {
    zero_pad(dec_digits(t.hour as nat), 2) + seq![':'] + zero_pad(dec_digits(t.minute as nat), 2)
        + seq![':'] + zero_pad(dec_digits(t.second as nat), 2)
}

/// Canonical timestamp text: the date, a space, the time, and a ` UTC`
/// marker.
pub open spec fn timestamp_str(t: Timestamp) -> Seq<char> {
    date_str(t.date) + seq![' '] + time_str(t.time) + seq![' ', 'U', 'T', 'C']
}

/// Canonical interval text: the count quoted, then the unit.
pub open spec fn interval_str(iv: Interval) -> Seq<char> {
    match iv {
        Interval::Month(m) => seq!['\''] + int_digits(m as int) + seq!['\'', ' ', 'M', 'O', 'N', 'T', 'H'],
        Interval::Microsecond(u) => seq!['\''] + int_digits(u as int) + seq![
            '\'',
            ' ',
            'M',
            'I',
            'C',
            'R',
            'O',
            'S',
            'E',
            'C',
            'O',
            'N',
            'D',
        ],
    }
}

/// Canonical address text: dotted quad for the old form, eight
/// colon-separated four-digit hexadecimal groups for the new one.
pub open spec fn inet_str(a: Inet) -> Seq<char> {
    match a {
        Inet::V4(v) => dec_digits((v as nat) / 0x1000000) + seq!['.'] + dec_digits(
            ((v as nat) / 0x10000) % 256,
        ) + seq!['.'] + dec_digits(((v as nat) / 0x100) % 256) + seq!['.'] + dec_digits(
            (v as nat) % 256,
        ),
        Inet::V6(v) => hex_fixed((v as nat) / 0x10000000000000000000000000000, 4)
            + seq![':'] + hex_fixed(((v as nat) / 0x1000000000000000000000000) % 0x10000, 4)
            + seq![':'] + hex_fixed(((v as nat) / 0x100000000000000000000) % 0x10000, 4)
            + seq![':'] + hex_fixed(((v as nat) / 0x10000000000000000) % 0x10000, 4)
            + seq![':'] + hex_fixed(((v as nat) / 0x1000000000000) % 0x10000, 4)
            + seq![':'] + hex_fixed(((v as nat) / 0x100000000) % 0x10000, 4)
            + seq![':'] + hex_fixed(((v as nat) / 0x10000) % 0x10000, 4)
            + seq![':'] + hex_fixed((v as nat) % 0x10000, 4),
    }
}

/// Formats `n` as its digits, left-padded with zeros to width `w`.
pub fn pad_num(n: u128, w: usize) -> (r: String)
    ensures
        r@ == zero_pad(dec_digits(n as nat), w as nat),
{
    proof {
        reveal_strlit("0");
    }
    let ds = u128_to_string(n);
    let k = ds.unicode_len();
    let mut out = String::new();
    let padn: usize = if k >= w {
        0
    } else {
        w - k
    };
    let mut i: usize = 0;
    while i < padn
        invariant
            i <= padn,
            out@ == Seq::new(i as nat, |j: int| '0'),
        decreases padn - i,
    {
        out.append("0");
        proof {
            reveal_strlit("0");
            assert("0"@ =~= seq!['0']);
            assert(Seq::new((i + 1) as nat, |j: int| '0') =~= Seq::new(i as nat, |j: int| '0')
                + seq!['0']);
        }
        i = i + 1;
    }
    out.append(ds.as_str());
    proof {
        assert(out@ =~= zero_pad(dec_digits(n as nat), w as nat));
    }
    out
}

/// Formats a date as its canonical text.
pub fn date_to_string(d: &Date) -> (r: String)
    ensures
        r@ == date_str(*d),
{
    proof {
        reveal_strlit("-");
    }
    let mut out = pad_num(d.year as u128, 4);
    out.append("-");
    out.append(pad_num(d.month as u128, 2).as_str());
    out.append("-");
    out.append(pad_num(d.day as u128, 2).as_str());
    proof {
        assert(out@ =~= date_str(*d));
    }
    out
}

/// Formats a time as its canonical text.
pub fn time_to_string(t: &Time) -> (r: String)
    ensures
        r@ == time_str(*t),
{
    proof {
        reveal_strlit(":");
    }
    let mut out = pad_num(t.hour as u128, 2);
    out.append(":");
    out.append(pad_num(t.minute as u128, 2).as_str());
    out.append(":");
    out.append(pad_num(t.second as u128, 2).as_str());
    proof {
        assert(out@ =~= time_str(*t));
    }
    out
}

/// Formats a timestamp as its canonical text.
pub fn timestamp_to_string(t: &Timestamp) -> (r: String)
    ensures
        r@ == timestamp_str(*t),
{
    proof {
        reveal_strlit(" ");
        reveal_strlit(" UTC");
    }
    let mut out = date_to_string(&t.date);
    out.append(" ");
    out.append(time_to_string(&t.time).as_str());
    out.append(" UTC");
    proof {
        assert(out@ =~= timestamp_str(*t));
    }
    out
}

/// Formats an interval as its canonical text.
pub fn interval_to_string(iv: &Interval) -> (r: String)
    ensures
        r@ == interval_str(*iv),
{
    proof {
        reveal_strlit("'");
        reveal_strlit("' MONTH");
        reveal_strlit("' MICROSECOND");
    }
    let mut out = String::new();
    out.append("'");
    match iv {
        Interval::Month(m) => {
            out.append(crate::digits::i128_to_string(*m as i128).as_str());
            out.append("' MONTH");
        },
        Interval::Microsecond(u) => {
            out.append(crate::digits::i128_to_string(*u as i128).as_str());
            out.append("' MICROSECOND");
        },
    }
    proof {
        assert(out@ =~= interval_str(*iv));
    }
    out
}

/// Formats a network address as its canonical text.
pub fn inet_to_string(a: &Inet) -> (r: String)
    ensures
        r@ == inet_str(*a),
{
    match a {
        Inet::V4(v) => {
            proof {
                reveal_strlit(".");
            }
            let v = *v;
            let mut out = u128_to_string((v / 0x1000000) as u128);
            out.append(".");
            out.append(u128_to_string(((v / 0x10000) % 256) as u128).as_str());
            out.append(".");
            out.append(u128_to_string(((v / 0x100) % 256) as u128).as_str());
            out.append(".");
            out.append(u128_to_string((v % 256) as u128).as_str());
            proof {
                assert(out@ =~= inet_str(*a));
            }
            out
        },
        Inet::V6(v) => {
            proof {
                reveal_strlit(":");
            }
            let v = *v;
            let mut out = u128_to_hex_fixed(v / 0x10000000000000000000000000000, 4);
            out.append(":");
            out.append(u128_to_hex_fixed((v / 0x1000000000000000000000000) % 0x10000, 4).as_str());
            out.append(":");
            out.append(u128_to_hex_fixed((v / 0x100000000000000000000) % 0x10000, 4).as_str());
            out.append(":");
            out.append(u128_to_hex_fixed((v / 0x10000000000000000) % 0x10000, 4).as_str());
            out.append(":");
            out.append(u128_to_hex_fixed((v / 0x1000000000000) % 0x10000, 4).as_str());
            out.append(":");
            out.append(u128_to_hex_fixed((v / 0x100000000) % 0x10000, 4).as_str());
            out.append(":");
            out.append(u128_to_hex_fixed((v / 0x10000) % 0x10000, 4).as_str());
            out.append(":");
            out.append(u128_to_hex_fixed(v % 0x10000, 4).as_str());
            proof {
                assert(out@ =~= inet_str(*a));
            }
            out
        },
    }
}

/// The parse of a date literal: exactly `YYYY-MM-DD`, all digits, and the
/// result must be a valid date.
pub open spec fn spec_parse_date(s: Seq<char>) -> Option<Date> {
    if s.len() == 10 && s[4] == '-' && s[7] == '-' && all_dec_digits(s.take(4)) && all_dec_digits(
        s.subrange(5, 7),
    ) && all_dec_digits(s.subrange(8, 10)) {
        let d = Date {
            year: digits_val(s.take(4)) as u16,
            month: digits_val(s.subrange(5, 7)) as u8,
            day: digits_val(s.subrange(8, 10)) as u8,
        };
        if date_wf(d) {
            Some(d)
        } else {
            None
        }
    } else {
        None
    }
}

/// A digit string's value is below ten to its length.
proof fn lemma_digits_val_pow_bound(s: Seq<char>)
    ensures
        digits_val(s) < crate::decimal::pow10(s.len()),
    decreases s.len(),
{
    if s.len() > 0 {
        lemma_digits_val_pow_bound(s.drop_last());
        assert(crate::decimal::pow10(s.len()) == 10 * crate::decimal::pow10(s.drop_last().len()));
    }
}

/// A digit string of at most four digits has a small value.
proof fn lemma_digits_val_bound(s: Seq<char>)
    requires
        s.len() <= 4,
    ensures
        digits_val(s) <= 9999,
{
    lemma_digits_val_pow_bound(s);
    reveal_with_fuel(crate::decimal::pow10, 6);
    crate::decimal::lemma_pow10_mono(s.len(), 4);
}

/// Parses a date literal.
pub fn parse_date(s: &str) -> (r: Option<Date>)
    ensures
        r == spec_parse_date(s@),
        r is Some ==> date_wf(r->0),
{
    let n = s.unicode_len();
    if n != 10 {
        return None;
    }
    if s.get_char(4) != '-' || s.get_char(7) != '-' {
        return None;
    }
    let y = match parse_u128_range(s, 0, 4) {
        Some(v) => v,
        None => {
            proof {
                assert(s@.subrange(0, 4) =~= s@.take(4));
                if all_dec_digits(s@.take(4)) {
                    lemma_digits_val_bound(s@.take(4));
                }
            }
            return None;
        },
    };
    let mo = match parse_u128_range(s, 5, 7) {
        Some(v) => v,
        None => {
            proof {
                if all_dec_digits(s@.subrange(5, 7)) {
                    lemma_digits_val_bound(s@.subrange(5, 7));
                }
            }
            return None;
        },
    };
    let d = match parse_u128_range(s, 8, 10) {
        Some(v) => v,
        None => {
            proof {
                if all_dec_digits(s@.subrange(8, 10)) {
                    lemma_digits_val_bound(s@.subrange(8, 10));
                }
            }
            return None;
        },
    };
    proof {
        assert(s@.subrange(0, 4) =~= s@.take(4));
        lemma_digits_val_bound(s@.take(4));
        lemma_digits_val_bound(s@.subrange(5, 7));
        lemma_digits_val_bound(s@.subrange(8, 10));
    }
    let date = Date { year: y as u16, month: mo as u8, day: d as u8 };
    if check_date_wf(&date) {
        Some(date)
    } else {
        None
    }
}

/// The parse of a time literal: exactly `HH:MM:SS`, all digits, and the
/// result must be a valid time.
pub open spec fn spec_parse_time(s: Seq<char>) -> Option<Time> {
    if s.len() == 8 && s[2] == ':' && s[5] == ':' && all_dec_digits(s.take(2)) && all_dec_digits(
        s.subrange(3, 5),
    ) && all_dec_digits(s.subrange(6, 8)) {
        let t = Time {
            hour: digits_val(s.take(2)) as u8,
            minute: digits_val(s.subrange(3, 5)) as u8,
            second: digits_val(s.subrange(6, 8)) as u8,
        };
        if time_wf(t) {
            Some(t)
        } else {
            None
        }
    } else {
        None
    }
}

/// Parses a time literal.
pub fn parse_time(s: &str) -> (r: Option<Time>)
    ensures
        r == spec_parse_time(s@),
        r is Some ==> time_wf(r->0),
{
    let n = s.unicode_len();
    if n != 8 {
        return None;
    }
    if s.get_char(2) != ':' || s.get_char(5) != ':' {
        return None;
    }
    let h = match parse_u128_range(s, 0, 2) {
        Some(v) => v,
        None => {
            proof {
                assert(s@.subrange(0, 2) =~= s@.take(2));
                if all_dec_digits(s@.take(2)) {
                    lemma_digits_val_bound(s@.take(2));
                }
            }
            return None;
        },
    };
    let mi = match parse_u128_range(s, 3, 5) {
        Some(v) => v,
        None => {
            proof {
                if all_dec_digits(s@.subrange(3, 5)) {
                    lemma_digits_val_bound(s@.subrange(3, 5));
                }
            }
            return None;
        },
    };
    let sec = match parse_u128_range(s, 6, 8) {
        Some(v) => v,
        None => {
            proof {
                if all_dec_digits(s@.subrange(6, 8)) {
                    lemma_digits_val_bound(s@.subrange(6, 8));
                }
            }
            return None;
        },
    };
    proof {
        assert(s@.subrange(0, 2) =~= s@.take(2));
        lemma_digits_val_bound(s@.take(2));
        lemma_digits_val_bound(s@.subrange(3, 5));
        lemma_digits_val_bound(s@.subrange(6, 8));
    }
    let t = Time { hour: h as u8, minute: mi as u8, second: sec as u8 };
    if check_time_wf(&t) {
        Some(t)
    } else {
        None
    }
}

/// The parse of a timestamp literal: a date, one space, a time.
pub open spec fn spec_parse_timestamp(s: Seq<char>) -> Option<Timestamp> {
    if s.len() == 19 && s[10] == ' ' {
        match (spec_parse_date(s.take(10)), spec_parse_time(s.skip(11))) {
            (Some(d), Some(t)) => Some(Timestamp { date: d, time: t }),
            _ => None,
        }
    } else {
        None
    }
}

/// Parses a timestamp literal.
pub fn parse_timestamp(s: &str) -> (r: Option<Timestamp>)
    ensures
        r == spec_parse_timestamp(s@),
        r is Some ==> timestamp_wf(r->0),
{
    let n = s.unicode_len();
    if n != 19 {
        return None;
    }
    if s.get_char(10) != ' ' {
        return None;
    }
    let dpart = s.substring_char(0, 10);
    let tpart = s.substring_char(11, 19);
    proof {
        assert(dpart@ =~= s@.take(10));
        assert(tpart@ =~= s@.skip(11));
    }
    let d = match parse_date(dpart) {
        Some(d) => d,
        None => {
            return None;
        },
    };
    let t = match parse_time(tpart) {
        Some(t) => t,
        None => {
            return None;
        },
    };
    Some(Timestamp { date: d, time: t })
}

/// The parse of a dotted-quad network address: four all-digit groups of
/// one to three digits, each at most 255.
pub open spec fn spec_parse_inet4(s: Seq<char>) -> Option<Inet> {
    let d1 = crate::decimal::first_dot(s);
    let d2 = d1 + 1 + crate::decimal::first_dot(s.skip(d1 + 1));
    let d3 = d2 + 1 + crate::decimal::first_dot(s.skip(d2 + 1));
    if d1 < s.len() && d2 < s.len() && d3 < s.len() {
        let g1 = s.take(d1);
        let g2 = s.subrange(d1 + 1, d2);
        let g3 = s.subrange(d2 + 1, d3);
        let g4 = s.skip(d3 + 1);
        if octet_ok(g1) && octet_ok(g2) && octet_ok(g3) && octet_ok(g4) {
            Some(
                Inet::V4(
                    (digits_val(g1) * 0x1000000 + digits_val(g2) * 0x10000 + digits_val(g3) * 0x100
                        + digits_val(g4)) as u32,
                ),
            )
        } else {
            None
        }
    } else {
        None
    }
}

/// An address group: one to three digits, value at most 255, and no dot
/// hiding inside (all digits excludes one).
pub open spec fn octet_ok(g: Seq<char>) -> bool {
    1 <= g.len() <= 3 && all_dec_digits(g) && digits_val(g) <= 255
}

/// Parses one digit group of a dotted-quad address.
fn parse_octet(s: &str, from: usize, to: usize) -> (r: Option<u32>)
    requires
        from <= to <= s@.len(),
    ensures
        match r {
            Some(v) => octet_ok(s@.subrange(from as int, to as int)) && v == digits_val(
                s@.subrange(from as int, to as int),
            ),
            None => !octet_ok(s@.subrange(from as int, to as int)),
        },
{
    if to - from < 1 || to - from > 3 {
        return None;
    }
    match parse_u128_range(s, from, to) {
        Some(v) => {
            proof {
                lemma_digits_val_bound(s@.subrange(from as int, to as int));
            }
            if v <= 255 {
                Some(v as u32)
            } else {
                None
            }
        },
        None => None,
    }
}

/// Parses a dotted-quad network address.
pub fn parse_inet4(s: &str) -> (r: Option<Inet>)
    ensures
        r == spec_parse_inet4(s@),
{
    let n = s.unicode_len();
    let d1 = crate::decimal::find_first_dot(s, 0);
    proof {
        assert(s@.skip(0) =~= s@);
    }
    if d1 >= n {
        return None;
    }
    let d2 = crate::decimal::find_first_dot(s, d1 + 1);
    if d2 >= n {
        return None;
    }
    let d3 = crate::decimal::find_first_dot(s, d2 + 1);
    if d3 >= n {
        return None;
    }
    proof {
        assert(s@.subrange(0, d1 as int) =~= s@.take(d1 as int));
        assert(s@.subrange(d3 + 1, n as int) =~= s@.skip(d3 + 1));
    }
    let g1 = match parse_octet(s, 0, d1) {
        Some(v) => v,
        None => {
            return None;
        },
    };
    let g2 = match parse_octet(s, d1 + 1, d2) {
        Some(v) => v,
        None => {
            return None;
        },
    };
    let g3 = match parse_octet(s, d2 + 1, d3) {
        Some(v) => v,
        None => {
            return None;
        },
    };
    let g4 = match parse_octet(s, d3 + 1, n) {
        Some(v) => v,
        None => {
            return None;
        },
    };
    Some(Inet::V4(g1 * 0x1000000 + g2 * 0x10000 + g3 * 0x100 + g4))
}

/// The parse of the canonical new-form address text: exactly 39
/// characters, colons at the seven fixed places, and eight groups of
/// four hexadecimal digits, exactly as `inet_str` writes them.
pub open spec fn spec_parse_inet6(s: Seq<char>) -> Option<Inet> {
    if s.len() == 39 && s[4] == ':' && s[9] == ':' && s[14] == ':' && s[19] == ':' && s[24] == ':'
        && s[29] == ':' && s[34] == ':' && crate::digits::all_hex_digits(inet6_digits(s)) {
        Some(Inet::V6(inet6_val(s) as u128))
    } else {
        None
    }
}

/// The 32 hexadecimal digits of a canonical new-form address text.
pub open spec fn inet6_digits(s: Seq<char>) -> Seq<char> {
    s.take(4) + s.subrange(5, 9) + s.subrange(10, 14) + s.subrange(15, 19) + s.subrange(20, 24)
        + s.subrange(25, 29) + s.subrange(30, 34) + s.skip(35)
}

/// The number a canonical new-form address text stands for: the eight
/// groups shifted into their sixteen-bit places.
pub open spec fn inet6_val(s: Seq<char>) -> int {
    (crate::digits::hexs_val(s.take(4)) * 0x10000000000000000000000000000
        + crate::digits::hexs_val(s.subrange(5, 9)) * 0x1000000000000000000000000
        + crate::digits::hexs_val(s.subrange(10, 14)) * 0x100000000000000000000
        + crate::digits::hexs_val(s.subrange(15, 19)) * 0x10000000000000000
        + crate::digits::hexs_val(s.subrange(20, 24)) * 0x1000000000000
        + crate::digits::hexs_val(s.subrange(25, 29)) * 0x100000000
        + crate::digits::hexs_val(s.subrange(30, 34)) * 0x10000
        + crate::digits::hexs_val(s.skip(35))) as int
}

/// A failed group leaves a non-digit among the address digits.
proof fn lemma_inet6_group_bad(s: Seq<char>, which: int)
    requires
        s.len() == 39,
        0 <= which <= 7,
        which == 0 ==> !crate::digits::all_hex_digits(s.subrange(0, 4)),
        which == 1 ==> !crate::digits::all_hex_digits(s.subrange(5, 9)),
        which == 2 ==> !crate::digits::all_hex_digits(s.subrange(10, 14)),
        which == 3 ==> !crate::digits::all_hex_digits(s.subrange(15, 19)),
        which == 4 ==> !crate::digits::all_hex_digits(s.subrange(20, 24)),
        which == 5 ==> !crate::digits::all_hex_digits(s.subrange(25, 29)),
        which == 6 ==> !crate::digits::all_hex_digits(s.subrange(30, 34)),
        which == 7 ==> !crate::digits::all_hex_digits(s.subrange(35, 39)),
    ensures
        !crate::digits::all_hex_digits(inet6_digits(s)),
{
    let u = inet6_digits(s);
    let g = s.subrange(5 * which, 5 * which + 4);
    assert(!crate::digits::all_hex_digits(g));
    let k = choose|k: int| 0 <= k < g.len() && !crate::digits::is_hex_digit(g[k]);
    assert(u[4 * which + k] == g[k]);
}

/// Parses a canonical new-form address text.
pub fn parse_inet6(s: &str) -> (r: Option<Inet>)
    ensures
        r == spec_parse_inet6(s@),
{
    let n = s.unicode_len();
    if n != 39 {
        return None;
    }
    if s.get_char(4) != ':' || s.get_char(9) != ':' || s.get_char(14) != ':' || s.get_char(19)
        != ':' || s.get_char(24) != ':' || s.get_char(29) != ':' || s.get_char(34) != ':' {
        return None;
    }
    proof {
        assert(s@.subrange(0, 4) =~= s@.take(4));
        assert(s@.subrange(35, 39) =~= s@.skip(35));
    }
    let g1 = match crate::digits::parse_hex_range(s, 0, 4) {
        Some(v) => v,
        None => {
            proof {
                lemma_inet6_group_bad(s@, 0);
            }
            return None;
        },
    };
    let g2 = match crate::digits::parse_hex_range(s, 5, 9) {
        Some(v) => v,
        None => {
            proof {
                lemma_inet6_group_bad(s@, 1);
            }
            return None;
        },
    };
    let g3 = match crate::digits::parse_hex_range(s, 10, 14) {
        Some(v) => v,
        None => {
            proof {
                lemma_inet6_group_bad(s@, 2);
            }
            return None;
        },
    };
    let g4 = match crate::digits::parse_hex_range(s, 15, 19) {
        Some(v) => v,
        None => {
            proof {
                lemma_inet6_group_bad(s@, 3);
            }
            return None;
        },
    };
    let g5 = match crate::digits::parse_hex_range(s, 20, 24) {
        Some(v) => v,
        None => {
            proof {
                lemma_inet6_group_bad(s@, 4);
            }
            return None;
        },
    };
    let g6 = match crate::digits::parse_hex_range(s, 25, 29) {
        Some(v) => v,
        None => {
            proof {
                lemma_inet6_group_bad(s@, 5);
            }
            return None;
        },
    };
    let g7 = match crate::digits::parse_hex_range(s, 30, 34) {
        Some(v) => v,
        None => {
            proof {
                lemma_inet6_group_bad(s@, 6);
            }
            return None;
        },
    };
    let g8 = match crate::digits::parse_hex_range(s, 35, 39) {
        Some(v) => v,
        None => {
            proof {
                lemma_inet6_group_bad(s@, 7);
            }
            return None;
        },
    };
    proof {
        reveal_with_fuel(crate::digits::pow16, 6);
        crate::digits::lemma_hexs_val_bound(s@.take(4), 4);
        crate::digits::lemma_hexs_val_bound(s@.subrange(5, 9), 4);
        crate::digits::lemma_hexs_val_bound(s@.subrange(10, 14), 4);
        crate::digits::lemma_hexs_val_bound(s@.subrange(15, 19), 4);
        crate::digits::lemma_hexs_val_bound(s@.subrange(20, 24), 4);
        crate::digits::lemma_hexs_val_bound(s@.subrange(25, 29), 4);
        crate::digits::lemma_hexs_val_bound(s@.subrange(30, 34), 4);
        crate::digits::lemma_hexs_val_bound(s@.skip(35), 4);
        assert forall|j: int|
            0 <= j < inet6_digits(s@).len() implies crate::digits::is_hex_digit(
            #[trigger] inet6_digits(s@)[j],
        ) by {
            let u = inet6_digits(s@);
            let w = j / 4;
            let k = j % 4;
            assert(u[w * 4 + k] == s@.subrange(5 * w, 5 * w + 4)[k]);
        }
    }
    let v = g1 * 0x10000000000000000000000000000 + g2 * 0x1000000000000000000000000 + g3
        * 0x100000000000000000000 + g4 * 0x10000000000000000 + g5 * 0x1000000000000 + g6
        * 0x100000000 + g7 * 0x10000 + g8;
    Some(Inet::V6(v))
}

} // verus!