//! Calendar dates: the `X-Amz-Date` stamp of presigned URLs, HTTP dates and
//! the month that statistics are filed under.

use vstd::prelude::*;

verus! {

/// Seconds since the Unix epoch of a UTC date and time, where it is a valid one.
pub uninterp spec fn epoch_seconds_of(year: i32, month: u32, day: u32, hour: u32, minute: u32, second: u32) -> Option<i64>;

/// The RFC 1123 text (`Sun, 06 Nov 1994 08:49:37 GMT`) of a moment given in
/// milliseconds since the epoch.
pub uninterp spec fn http_date_of(millis: i64) -> Seq<char>;

/// The `YYYY-MM` text of the UTC month of a moment given in milliseconds.
pub uninterp spec fn year_month_of(millis: i64) -> Seq<char>;

/// Relies on `chrono::NaiveDate::from_ymd_opt`, `and_hms_opt` and
/// `and_utc().timestamp()`: `None` for a date or time that does not exist.
#[verifier::external_body]
pub fn epoch_seconds(year: i32, month: u32, day: u32, hour: u32, minute: u32, second: u32) -> (r: Option<i64>)
    ensures
        r == epoch_seconds_of(year, month, day, hour, minute, second),
{
    chrono::NaiveDate::from_ymd_opt(year, month, day)
        .and_then(|d| d.and_hms_opt(hour, minute, second))
        .map(|t| t.and_utc().timestamp())
}

/// Relies on `chrono::DateTime::from_timestamp_millis` and its `format`; a
/// moment out of chrono's range gives the empty text.
#[verifier::external_body]
pub fn http_date(millis: i64) -> (r: String)
    ensures
        r@ == http_date_of(millis),
{
    match chrono::DateTime::from_timestamp_millis(millis) {
        Some(t) => t.format("%a, %d %b %Y %H:%M:%S GMT").to_string(),
        None => String::new(),
    }
}

/// Relies on `chrono::DateTime::from_timestamp_millis` and its `format`; a
/// moment out of chrono's range gives the empty text.
#[verifier::external_body]
pub fn year_month(millis: i64) -> (r: String)
    ensures
        r@ == year_month_of(millis),
{
    match chrono::DateTime::from_timestamp_millis(millis) {
        Some(t) => t.format("%Y-%m").to_string(),
        None => String::new(),
    }
}

pub open spec fn dv(c: char) -> int {
    c as int - '0' as int
}

pub open spec fn stamp_digits(s: Seq<char>) -> bool {
    forall|j: int| 0 <= j < 15 && j != 8 ==> '0' <= #[trigger] s[j] <= '9'
}

/// The fields of an `X-Amz-Date` stamp `YYYYMMDDTHHMMSSZ`: year, month, day,
/// hour, minute and second.
pub open spec fn amz_date_fields(s: Seq<char>) -> Option<(int, int, int, int, int, int)> {
    if s.len() == 16 && s[8] == 'T' && s[15] == 'Z' && stamp_digits(s) {
        Some((
            dv(s[0]) * 1000 + dv(s[1]) * 100 + dv(s[2]) * 10 + dv(s[3]),
            dv(s[4]) * 10 + dv(s[5]),
            dv(s[6]) * 10 + dv(s[7]),
            dv(s[9]) * 10 + dv(s[10]),
            dv(s[11]) * 10 + dv(s[12]),
            dv(s[13]) * 10 + dv(s[14]),
        ))
    } else {
        None
    }
}

fn digit_at(c: &Vec<char>, i: usize) -> (r: u32)
    requires
        i < c@.len(),
        '0' <= c@[i as int] <= '9',
    ensures
        r as int == dv(c@[i as int]),
        r <= 9,
{
    (c[i] as u32) - ('0' as u32)
}

/// The moment, in seconds since the epoch, that an `X-Amz-Date` stamp names.
pub fn parse_amz_date(stamp: &str) -> (r: Option<i64>)
    ensures
        match amz_date_fields(stamp@) {
            Some((y, mo, d, h, mi, s)) => r == epoch_seconds_of(y as i32, mo as u32, d as u32, h as u32, mi as u32, s as u32),
            None => r is None,
        },
{
    let c = crate::text::chars_of(stamp);
    if c.len() != 16 || c[8] != 'T' || c[15] != 'Z' {
        return None;
    }
    let mut i: usize = 0;
    while i < 15
        invariant
            i <= 15,
            c@ == stamp@,
            c@.len() == 16,
            forall|j: int| 0 <= j < i && j != 8 ==> '0' <= #[trigger] c@[j] <= '9',
        decreases 15 - i,
    {
        if i != 8 && !('0' <= c[i] && c[i] <= '9') {
            assert(!('0' <= c@[i as int] <= '9'));
            assert(!stamp_digits(stamp@));
            return None;
        }
        i = i + 1;
    }
    let y = digit_at(&c, 0) * 1000 + digit_at(&c, 1) * 100 + digit_at(&c, 2) * 10 + digit_at(&c, 3);
    let mo = digit_at(&c, 4) * 10 + digit_at(&c, 5);
    let d = digit_at(&c, 6) * 10 + digit_at(&c, 7);
    let h = digit_at(&c, 9) * 10 + digit_at(&c, 10);
    let mi = digit_at(&c, 11) * 10 + digit_at(&c, 12);
    let sec = digit_at(&c, 13) * 10 + digit_at(&c, 14);
    epoch_seconds(y as i32, mo, d, h, mi, sec)
}

} // verus!
