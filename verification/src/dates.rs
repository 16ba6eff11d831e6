//! Date resolver: converts heterogeneous textual timestamps into one
//! canonical timestamp type, trying two known formats in order: an
//! ISO-like `YYYY-MM-DD HH:MM:SS` (trailing text tolerated), then an
//! RFC-822-style `Www, DD Mon YYYY HH:MM:SS +ZZZZ`. An input matching
//! neither is a hard error.

use vstd::prelude::*;

use crate::text::chars_of;
use crate::{digit_val, is_digit, check_digit};

verus! {

/// Canonical timestamp: a civil date and time of day together with a UTC
/// offset in seconds. The instant it denotes is `instant()`.
#[derive(Clone, Copy, PartialEq, Eq, Structural, Debug)]
pub struct Timestamp {
    pub year: u32,
    pub month: u32,
    pub day: u32,
    pub hour: u32,
    pub minute: u32,
    pub second: u32,
    pub offset_seconds: i32,
}

/// Raised when a published string matches neither recognized format.
#[derive(Clone, Copy, PartialEq, Eq, Structural, Debug)]
pub enum DateError {
    Unrecognized,
}

/// Gregorian leap year.
pub open spec fn is_leap_year(y: int) -> bool {
    y % 4 == 0 && (y % 100 != 0 || y % 400 == 0)
}

/// Number of days in a month of a given year.
pub open spec fn days_in_month(y: int, m: int) -> int {
    if m == 2 {
        if is_leap_year(y) {
            29
        } else {
            28
        }
    } else if m == 4 || m == 6 || m == 9 || m == 11 {
        30
    } else {
        31
    }
}

/// Days since 1970-01-01 of the civil date `y-m-d` (proleptic Gregorian,
/// valid for years from 1 onward).
pub open spec fn days_from_civil(y: int, m: int, d: int) -> int {
    let yy = if m <= 2 {
        y - 1
    } else {
        y
    };
    let era = yy / 400;
    let yoe = yy - era * 400;
    let mp = if m > 2 {
        m - 3
    } else {
        m + 9
    };
    let doy = (153 * mp + 2) / 5 + d - 1;
    let doe = yoe * 365 + yoe / 4 - yoe / 100 + doy;
    era * 146097 + doe - 719468
}

/// Seconds since 1970-01-01 00:00:00 UTC of the given civil fields and
/// UTC offset.
pub open spec fn epoch_of(y: int, m: int, d: int, h: int, mi: int, sec: int, off: int) -> int {
    days_from_civil(y, m, d) * 86400 + h * 3600 + mi * 60 + sec - off
}

/// The civil fields lie in their calendar ranges.
pub open spec fn fields_valid(y: int, m: int, d: int, h: int, mi: int, sec: int) -> bool {
    &&& 1 <= y <= 9999
    &&& 1 <= m <= 12
    &&& 1 <= d <= days_in_month(y, m)
    &&& 0 <= h <= 23
    &&& 0 <= mi <= 59
    &&& 0 <= sec <= 59
}

impl Timestamp {
    /// Well-formed: all fields in range and the offset under a day.
    pub open spec fn wf(self) -> bool {
        &&& fields_valid(
            self.year as int,
            self.month as int,
            self.day as int,
            self.hour as int,
            self.minute as int,
            self.second as int,
        )
        &&& self.offset_seconds > -86400
        &&& self.offset_seconds < 86400
    }

    /// The instant this timestamp denotes, in seconds since the epoch.
    pub open spec fn instant(self) -> int {
        epoch_of(
            self.year as int,
            self.month as int,
            self.day as int,
            self.hour as int,
            self.minute as int,
            self.second as int,
            self.offset_seconds as int,
        )
    }

    /// Compute the denoted instant in seconds since the epoch.
    pub fn epoch_seconds(&self) -> (r: i64)
        requires
            self.wf(),
        ensures
            r as int == self.instant(),
    {
        let days = civil_days(self.year, self.month, self.day);
        days * 86400 + (self.hour as i64) * 3600 + (self.minute as i64) * 60 + (
        self.second as i64) - (self.offset_seconds as i64)
    }
}

/// Days since the epoch of a civil date, as `days_from_civil` describes.
fn civil_days(y: u32, m: u32, d: u32) -> (r: i64)
    requires
        1 <= y <= 9999,
        1 <= m <= 12,
        1 <= d <= 31,
    ensures
        r as int == days_from_civil(y as int, m as int, d as int),
        -719469 < r < 3000000,
{
    let yy: u64 = if m <= 2 {
        (y - 1) as u64
    } else {
        y as u64
    };
    let era: u64 = yy / 400;
    proof {
        assert(era * 400 <= yy < era * 400 + 400) by (nonlinear_arith)
            requires
                era == yy as int / 400,
                yy <= 9999,
        ;
        assert(era <= 24) by (nonlinear_arith)
            requires
                era == yy as int / 400,
                yy <= 9999,
        ;
    }
    let yoe: u64 = yy - era * 400;
    let mp: u64 = if m > 2 {
        (m - 3) as u64
    } else {
        (m + 9) as u64
    };
    let doy: u64 = (153 * mp + 2) / 5 + (d - 1) as u64;
    proof {
        assert((153 * mp + 2) / 5 <= 337) by (nonlinear_arith)
            requires
                mp <= 11,
        ;
        assert(yoe / 4 <= 99 && yoe / 100 <= 3) by (nonlinear_arith)
            requires
                yoe <= 399,
        ;
    }
    let doe: u64 = yoe * 365 + yoe / 4 - yoe / 100 + doy;
    let r: i64 = (era * 146097 + doe) as i64 - 719468;
    r
}

/// Two ASCII digits stand at `p` and `p + 1`.
pub open spec fn digits2(s: Seq<char>, p: int) -> bool {
    is_digit(s[p]) && is_digit(s[p + 1])
}

/// Value of the two digits at `p`.
pub open spec fn val2(s: Seq<char>, p: int) -> int {
    digit_val(s[p]) * 10 + digit_val(s[p + 1])
}

/// Four ASCII digits stand at `p` through `p + 3`.
pub open spec fn digits4(s: Seq<char>, p: int) -> bool {
    is_digit(s[p]) && is_digit(s[p + 1]) && is_digit(s[p + 2]) && is_digit(s[p + 3])
}

/// Value of the four digits at `p`.
pub open spec fn val4(s: Seq<char>, p: int) -> int {
    digit_val(s[p]) * 1000 + digit_val(s[p + 1]) * 100 + digit_val(s[p + 2]) * 10 + digit_val(
        s[p + 3],
    )
}

/// Timestamp built from in-range field values.
pub open spec fn make_ts(y: int, m: int, d: int, h: int, mi: int, sec: int, off: int) -> Timestamp {
    Timestamp {
        year: y as u32,
        month: m as u32,
        day: d as u32,
        hour: h as u32,
        minute: mi as u32,
        second: sec as u32,
        offset_seconds: off as i32,
    }
}

/// First tried format: `YYYY-MM-DD HH:MM:SS` with no timezone, read as
/// offset zero; text after the nineteenth character is ignored. `None`
/// when the shape or a field range does not match.
pub open spec fn iso_parse(s: Seq<char>) -> Option<Timestamp> {
    if s.len() >= 19 && digits4(s, 0) && s[4] == '-' && digits2(s, 5) && s[7] == '-' && digits2(
        s,
        8,
    ) && s[10] == ' ' && digits2(s, 11) && s[13] == ':' && digits2(s, 14) && s[16] == ':'
        && digits2(s, 17) {
        let y = val4(s, 0);
        let mo = val2(s, 5);
        let d = val2(s, 8);
        let h = val2(s, 11);
        let mi = val2(s, 14);
        let sec = val2(s, 17);
        if fields_valid(y, mo, d, h, mi, sec) {
            Some(make_ts(y, mo, d, h, mi, sec, 0))
        } else {
            None
        }
    } else {
        None
    }
}

/// ASCII lowercase of one character; all others unchanged.
pub open spec fn lower_char(c: char) -> char {
    if 65 <= c as int && c as int <= 90 {
        ((c as u8) + 32) as char
    } else {
        c
    }
}

/// The three characters at the start name a weekday abbreviation,
/// compared case-insensitively.
pub open spec fn is_weekday_name(a: char, b: char, c: char) -> bool {
    let x = lower_char(a);
    let y = lower_char(b);
    let z = lower_char(c);
    ||| (x == 'm' && y == 'o' && z == 'n')
    ||| (x == 't' && y == 'u' && z == 'e')
    ||| (x == 'w' && y == 'e' && z == 'd')
    ||| (x == 't' && y == 'h' && z == 'u')
    ||| (x == 'f' && y == 'r' && z == 'i')
    ||| (x == 's' && y == 'a' && z == 't')
    ||| (x == 's' && y == 'u' && z == 'n')
}

/// Month number named by a three-letter abbreviation, compared
/// case-insensitively; `0` when none matches.
pub open spec fn month_of_name(a: char, b: char, c: char) -> int {
    let x = lower_char(a);
    let y = lower_char(b);
    let z = lower_char(c);
    if x == 'j' && y == 'a' && z == 'n' {
        1
    } else if x == 'f' && y == 'e' && z == 'b' {
        2
    } else if x == 'm' && y == 'a' && z == 'r' {
        3
    } else if x == 'a' && y == 'p' && z == 'r' {
        4
    } else if x == 'm' && y == 'a' && z == 'y' {
        5
    } else if x == 'j' && y == 'u' && z == 'n' {
        6
    } else if x == 'j' && y == 'u' && z == 'l' {
        7
    } else if x == 'a' && y == 'u' && z == 'g' {
        8
    } else if x == 's' && y == 'e' && z == 'p' {
        9
    } else if x == 'o' && y == 'c' && z == 't' {
        10
    } else if x == 'n' && y == 'o' && z == 'v' {
        11
    } else if x == 'd' && y == 'e' && z == 'c' {
        12
    } else {
        0
    }
}

/// Tail of the RFC-822-style format from position `p`, the space after
/// the day number: ` Mon YYYY HH:MM:SS +ZZZZ`, with the offset written
/// either as four digits or as two, a colon, and two; the whole input
/// must end with the offset.
pub open spec fn rfc_rest(s: Seq<char>, p: int, day: int) -> Option<Timestamp> {
    if p + 20 <= s.len() && s[p] == ' ' && month_of_name(s[p + 1], s[p + 2], s[p + 3]) != 0
        && s[p + 4] == ' ' && digits4(s, p + 5) && s[p + 9] == ' ' && digits2(s, p + 10) && s[p
        + 12] == ':' && digits2(s, p + 13) && s[p + 15] == ':' && digits2(s, p + 16) && s[p + 18]
        == ' ' && (s[p + 19] == '+' || s[p + 19] == '-') {
        let mo = month_of_name(s[p + 1], s[p + 2], s[p + 3]);
        let y = val4(s, p + 5);
        let h = val2(s, p + 10);
        let mi = val2(s, p + 13);
        let sec = val2(s, p + 16);
        let neg = s[p + 19] == '-';
        if s.len() == p + 24 && digits2(s, p + 20) && digits2(s, p + 22) {
            rfc_build(y, mo, day, h, mi, sec, neg, val2(s, p + 20), val2(s, p + 22))
        } else if s.len() == p + 25 && digits2(s, p + 20) && s[p + 22] == ':' && digits2(
            s,
            p + 23,
        ) {
            rfc_build(y, mo, day, h, mi, sec, neg, val2(s, p + 20), val2(s, p + 23))
        } else {
            None
        }
    } else {
        None
    }
}

/// Final validation and construction for the RFC-822-style format.
pub open spec fn rfc_build(
    y: int,
    mo: int,
    day: int,
    h: int,
    mi: int,
    sec: int,
    neg: bool,
    ohh: int,
    omm: int,
) -> Option<Timestamp> {
    if fields_valid(y, mo, day, h, mi, sec) && ohh <= 23 && omm <= 59 {
        let off = if neg {
            -(ohh * 3600 + omm * 60)
        } else {
            ohh * 3600 + omm * 60
        };
        Some(make_ts(y, mo, day, h, mi, sec, off))
    } else {
        None
    }
}

/// Second tried format, RFC-822-style: `Www, D Mon YYYY HH:MM:SS +ZZZZ`
/// with a case-insensitive three-letter weekday, a one- or two-digit day,
/// and the offset forms `rfc_rest` names. The weekday name is checked for
/// shape, not for consistency with the date.
pub open spec fn rfc_parse(s: Seq<char>) -> Option<Timestamp> {
    if s.len() >= 7 && is_weekday_name(s[0], s[1], s[2]) && s[3] == ',' && s[4] == ' ' && is_digit(
        s[5],
    ) {
        if is_digit(s[6]) {
            rfc_rest(s, 7, val2(s, 5))
        } else {
            rfc_rest(s, 6, digit_val(s[5]))
        }
    } else {
        None
    }
}

/// The resolver's result: the first format, else the second, else nothing.
pub open spec fn resolve_spec(s: Seq<char>) -> Option<Timestamp> {
    if iso_parse(s) is Some {
        iso_parse(s)
    } else {
        rfc_parse(s)
    }
}

/// ASCII lowercase of one character.
pub fn lower_char_exec(c: char) -> (r: char)
    ensures
        r == lower_char(c),
{
    let v = c as u32;
    if 65 <= v && v <= 90 {
        ((c as u8) + 32) as char
    } else {
        c
    }
}

/// Numeric value of a digit character.
fn dval(c: char) -> (r: u32)
    requires
        is_digit(c),
    ensures
        r as int == digit_val(c),
        r <= 9,
{
    (c as u32) - 48
}

/// Read the two-digit value at `p`.
fn read2(s: &Vec<char>, p: usize) -> (r: Option<u32>)
    requires
        p + 2 <= s@.len(),
        s@.len() <= usize::MAX,
    ensures
        match r {
            Some(v) => digits2(s@, p as int) && v as int == val2(s@, p as int) && v <= 99,
            None => !digits2(s@, p as int),
        },
{
    if check_digit(s[p]) && check_digit(s[p + 1]) {
        Some(dval(s[p]) * 10 + dval(s[p + 1]))
    } else {
        None
    }
}

/// Read the four-digit value at `p`.
fn read4(s: &Vec<char>, p: usize) -> (r: Option<u32>)
    requires
        p + 4 <= s@.len(),
        s@.len() <= usize::MAX,
    ensures
        match r {
            Some(v) => digits4(s@, p as int) && v as int == val4(s@, p as int) && v <= 9999,
            None => !digits4(s@, p as int),
        },
{
    if check_digit(s[p]) && check_digit(s[p + 1]) && check_digit(s[p + 2]) && check_digit(
        s[p + 3],
    ) {
        Some(dval(s[p]) * 1000 + dval(s[p + 1]) * 100 + dval(s[p + 2]) * 10 + dval(s[p + 3]))
    } else {
        None
    }
}

/// Check the calendar ranges of parsed fields.
fn check_fields(y: u32, mo: u32, d: u32, h: u32, mi: u32, sec: u32) -> (r: bool)
    ensures
        r == fields_valid(y as int, mo as int, d as int, h as int, mi as int, sec as int),
{
    if !(1 <= y && y <= 9999 && 1 <= mo && mo <= 12 && 1 <= d && h <= 23 && mi <= 59 && sec <= 59) {
        return false;
    }
    let dim: u32 = if mo == 2 {
        if y % 4 == 0 && (y % 100 != 0 || y % 400 == 0) {
            29
        } else {
            28
        }
    } else if mo == 4 || mo == 6 || mo == 9 || mo == 11 {
        30
    } else {
        31
    };
    d <= dim
}

/// Parse the ISO-like format, as `iso_parse` describes.
fn iso_parse_exec(s: &Vec<char>) -> (r: Option<Timestamp>)
    ensures
        r == iso_parse(s@),
{
    if s.len() < 19 {
        return None;
    }
    if !(s[4] == '-' && s[7] == '-' && s[10] == ' ' && s[13] == ':' && s[16] == ':') {
        return None;
    }
    let y = match read4(s, 0) {
        Some(v) => v,
        None => {
            return None;
        },
    };
    let mo = match read2(s, 5) {
        Some(v) => v,
        None => {
            return None;
        },
    };
    let d = match read2(s, 8) {
        Some(v) => v,
        None => {
            return None;
        },
    };
    let h = match read2(s, 11) {
        Some(v) => v,
        None => {
            return None;
        },
    };
    let mi = match read2(s, 14) {
        Some(v) => v,
        None => {
            return None;
        },
    };
    let sec = match read2(s, 17) {
        Some(v) => v,
        None => {
            return None;
        },
    };
    if check_fields(y, mo, d, h, mi, sec) {
        Some(
            Timestamp {
                year: y,
                month: mo,
                day: d,
                hour: h,
                minute: mi,
                second: sec,
                offset_seconds: 0,
            },
        )
    } else {
        None
    }
}

/// Month number of the abbreviation at `p`, zero when none matches.
fn month_exec(s: &Vec<char>, p: usize) -> (r: u32)
    requires
        p + 3 <= s@.len(),
        s@.len() <= usize::MAX,
    ensures
        r as int == month_of_name(s@[p as int], s@[p + 1], s@[p + 2]),
{
    let x = lower_char_exec(s[p]);
    let y = lower_char_exec(s[p + 1]);
    let z = lower_char_exec(s[p + 2]);
    if x == 'j' && y == 'a' && z == 'n' {
        1
    } else if x == 'f' && y == 'e' && z == 'b' {
        2
    } else if x == 'm' && y == 'a' && z == 'r' {
        3
    } else if x == 'a' && y == 'p' && z == 'r' {
        4
    } else if x == 'm' && y == 'a' && z == 'y' {
        5
    } else if x == 'j' && y == 'u' && z == 'n' {
        6
    } else if x == 'j' && y == 'u' && z == 'l' {
        7
    } else if x == 'a' && y == 'u' && z == 'g' {
        8
    } else if x == 's' && y == 'e' && z == 'p' {
        9
    } else if x == 'o' && y == 'c' && z == 't' {
        10
    } else if x == 'n' && y == 'o' && z == 'v' {
        11
    } else if x == 'd' && y == 'e' && z == 'c' {
        12
    } else {
        0
    }
}

/// Parse the tail of the RFC-822-style format, as `rfc_rest` describes.
fn rfc_rest_exec(s: &Vec<char>, p: usize, day: u32) -> (r: Option<Timestamp>)
    requires
        p <= s@.len(),
        day <= 99,
    ensures
        r == rfc_rest(s@, p as int, day as int),
{
    let n = s.len();
    if n - p < 20 {
        return None;
    }
    if !(s[p] == ' ' && s[p + 4] == ' ' && s[p + 9] == ' ' && s[p + 12] == ':' && s[p + 15] == ':'
        && s[p + 18] == ' ') {
        return None;
    }
    let mo = month_exec(s, p + 1);
    if mo == 0 {
        return None;
    }
    let sign = s[p + 19];
    if !(sign == '+' || sign == '-') {
        return None;
    }
    let y = match read4(s, p + 5) {
        Some(v) => v,
        None => {
            return None;
        },
    };
    let h = match read2(s, p + 10) {
        Some(v) => v,
        None => {
            return None;
        },
    };
    let mi = match read2(s, p + 13) {
        Some(v) => v,
        None => {
            return None;
        },
    };
    let sec = match read2(s, p + 16) {
        Some(v) => v,
        None => {
            return None;
        },
    };
    let neg = sign == '-';
    if n - p == 24 {
        let ohh = match read2(s, p + 20) {
            Some(v) => v,
            None => {
                return None;
            },
        };
        let omm = match read2(s, p + 22) {
            Some(v) => v,
            None => {
                return None;
            },
        };
        rfc_build_exec(y, mo, day, h, mi, sec, neg, ohh, omm)
    } else if n - p == 25 {
        if s[p + 22] != ':' {
            return None;
        }
        let ohh = match read2(s, p + 20) {
            Some(v) => v,
            None => {
                return None;
            },
        };
        let omm = match read2(s, p + 23) {
            Some(v) => v,
            None => {
                return None;
            },
        };
        rfc_build_exec(y, mo, day, h, mi, sec, neg, ohh, omm)
    } else {
        None
    }
}

/// Validate parsed RFC-822-style fields and build the timestamp.
fn rfc_build_exec(y: u32, mo: u32, day: u32, h: u32, mi: u32, sec: u32, neg: bool, ohh: u32, omm:
    u32) -> (r: Option<Timestamp>)
    requires
        ohh <= 99,
        omm <= 99,
    ensures
        r == rfc_build(
            y as int,
            mo as int,
            day as int,
            h as int,
            mi as int,
            sec as int,
            neg,
            ohh as int,
            omm as int,
        ),
{
    if check_fields(y, mo, day, h, mi, sec) && ohh <= 23 && omm <= 59 {
        let mag: i32 = (ohh * 3600 + omm * 60) as i32;
        let off: i32 = if neg {
            -mag
        } else {
            mag
        };
        Some(
            Timestamp {
                year: y,
                month: mo,
                day,
                hour: h,
                minute: mi,
                second: sec,
                offset_seconds: off,
            },
        )
    } else {
        None
    }
}

/// Parse the RFC-822-style format, as `rfc_parse` describes.
fn rfc_parse_exec(s: &Vec<char>) -> (r: Option<Timestamp>)
    ensures
        r == rfc_parse(s@),
{
    if s.len() < 7 {
        return None;
    }
    let a = lower_char_exec(s[0]);
    let b = lower_char_exec(s[1]);
    let c = lower_char_exec(s[2]);
    let wd = (a == 'm' && b == 'o' && c == 'n') || (a == 't' && b == 'u' && c == 'e') || (a == 'w'
        && b == 'e' && c == 'd') || (a == 't' && b == 'h' && c == 'u') || (a == 'f' && b == 'r' && c
        == 'i') || (a == 's' && b == 'a' && c == 't') || (a == 's' && b == 'u' && c == 'n');
    if !wd || s[3] != ',' || s[4] != ' ' || !check_digit(s[5]) {
        return None;
    }
    if check_digit(s[6]) {
        let day = dval(s[5]) * 10 + dval(s[6]);
        rfc_rest_exec(s, 7, day)
    } else {
        rfc_rest_exec(s, 6, dval(s[5]))
    }
}

/// Resolve a raw published string: the ISO-like format is tried first,
/// then the RFC-822-style one; `Err` exactly when neither matches. A
/// returned timestamp is well formed.
pub fn resolve_date(raw: &str) -> (r: Result<Timestamp, DateError>)
    ensures
        match r {
            Ok(ts) => resolve_spec(raw@) == Some(ts) && ts.wf(),
            Err(_) => resolve_spec(raw@) is None,
        },
{
    let cs = chars_of(raw);
    let out = match iso_parse_exec(&cs) {
        Some(ts) => Some(ts),
        None => rfc_parse_exec(&cs),
    };
    match out {
        Some(ts) => Ok(ts),
        None => Err(DateError::Unrecognized),
    }
}

} // verus!
