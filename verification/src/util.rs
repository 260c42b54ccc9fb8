use vstd::prelude::*;
use vstd::string::*;
use crate::error::BenchError;
use crate::config::Config;
use crate::numbers::{all_digits, digits_val, parse_u64, lemma_digits_val_nonneg,
    dec_digits, u64_to_string};

verus! {

/// Relies on which::which: whether `name` resolves to an executable,
/// searching the current PATH.  The answer depends on the machine, so
/// nothing is promised of it.
#[verifier::external_body]
fn binary_on_path(name: &str) -> bool {
    which::which(name).is_ok()
}

/// Relies on chrono::Utc::now: the current wall-clock time in Unix
/// seconds.  The clock's reading is promised nothing; the call panics
/// only on a machine whose clock is set before the Unix epoch.
#[verifier::external_body]
pub(crate) fn now_unix() -> i64 {
    chrono::Utc::now().timestamp()
}

/// Decide availability from the per-binary lookups: the sweep may start
/// exactly when every required binary was found.
pub fn judge_binaries(found: &Vec<bool>) -> (r: Result<(), BenchError>)
    ensures
        r is Ok <==> (forall|i: int| 0 <= i < found@.len() ==> found@[i]),
        r is Err ==> r->Err_0 is Unavailable,
{
    let n = found.len();
    let mut i: usize = 0;
    while i < n
        invariant
            n == found@.len(),
            0 <= i <= n,
            forall|k: int| 0 <= k < i ==> found@[k],
        decreases n - i,
    {
        if !found[i] {
            return Err(
                BenchError::Unavailable(
                    String::from_str("a required binary is missing from the execution path"),
                ),
            );
        }
        i = i + 1;
    }
    Ok(())
}

/// Check that every configured binary is on the path; missing ones make
/// the whole sweep unavailable before any iteration starts.  The
/// all-found decision over the lookups' outcomes is `judge_binaries`.
pub fn check_binaries_exist(config: &Config) -> (r: Result<(), BenchError>)
    ensures
        r is Err ==> r->Err_0 is Unavailable,
        config.settings.binaries@.len() == 0 ==> r is Ok,
{
    let mut found: Vec<bool> = Vec::new();
    let n = config.settings.binaries.len();
    let mut i: usize = 0;
    while i < n
        invariant
            n == config.settings.binaries@.len(),
            0 <= i <= n,
            found@.len() == i,
        decreases n - i,
    {
        found.push(binary_on_path(config.settings.binaries[i].as_str()));
        i = i + 1;
    }
    judge_binaries(&found)
}

/// A Gregorian leap year.
pub open spec fn is_leap(y: int) -> bool {
    y % 4 == 0 && (y % 100 != 0 || y % 400 == 0)
}

pub open spec fn days_in_year(y: int) -> int {
    if is_leap(y) {
        366
    } else {
        365
    }
}

pub open spec fn days_in_month(y: int, m: int) -> int {
    if m == 2 {
        if is_leap(y) {
            29
        } else {
            28
        }
    } else if m == 4 || m == 6 || m == 9 || m == 11 {
        30
    } else {
        31
    }
}

/// Days from the Unix epoch to the start of year `y`, for `y >= 1970`.
pub open spec fn days_to_year(y: int) -> int
    decreases y - 1970,
{
    if y <= 1970 {
        0
    } else {
        days_to_year(y - 1) + days_in_year(y - 1)
    }
}

/// Days from the start of year `y` to the start of month `m`.
pub open spec fn days_to_month(y: int, m: int) -> int
    decreases m,
{
    if m <= 1 {
        0
    } else {
        days_to_month(y, m - 1) + days_in_month(y, m - 1)
    }
}

/// Days from the Unix epoch to the civil date `y-m-d`.
pub open spec fn civil_days(y: int, m: int, d: int) -> int {
    days_to_year(y) + days_to_month(y, m) + (d - 1)
}

/// Whether `y-m-d` is a real calendar date this parser accepts: from the
/// Unix epoch up to the largest four-digit year.
pub open spec fn valid_date(y: int, m: int, d: int) -> bool {
    1970 <= y <= 9999 && 1 <= m <= 12 && 1 <= d <= days_in_month(y, m)
}

/// The Unix timestamp of midnight (UTC) on the date a `YYYY-MM-DD`
/// string denotes, if it denotes one.
pub open spec fn date_stamp(s: Seq<char>) -> Option<int> {
    if s.len() == 10 && s[4] == '-' && s[7] == '-' {
        let ys = s.take(4);
        let ms = s.subrange(5, 7);
        let ds = s.skip(8);
        if all_digits(ys) && all_digits(ms) && all_digits(ds) {
            let y = digits_val(ys);
            let m = digits_val(ms);
            let d = digits_val(ds);
            if valid_date(y, m, d) {
                Some(civil_days(y, m, d) * 86400)
            } else {
                None
            }
        } else {
            None
        }
    } else {
        None
    }
}

proof fn lemma_days_to_year_bound(y: int)
    requires
        1970 <= y <= 10000,
    ensures
        0 <= days_to_year(y) <= 366 * (y - 1970),
    decreases y - 1970,
{
    if y > 1970 {
        lemma_days_to_year_bound(y - 1);
    }
}

proof fn lemma_days_to_month_bound(y: int, m: int)
    requires
        1 <= m <= 13,
    ensures
        0 <= days_to_month(y, m) <= 31 * (m - 1),
    decreases m,
{
    if m > 1 {
        lemma_days_to_month_bound(y, m - 1);
    }
}

fn leap_year(y: u64) -> (r: bool)
    ensures
        r == is_leap(y as int),
{
    y % 4 == 0 && (y % 100 != 0 || y % 400 == 0)
}

fn month_days(y: u64, m: u64) -> (r: u64)
    ensures
        r as int == days_in_month(y as int, m as int),
{
    if m == 2 {
        if leap_year(y) {
            29
        } else {
            28
        }
    } else if m == 4 || m == 6 || m == 9 || m == 11 {
        30
    } else {
        31
    }
}

/// Parse a `YYYY-MM-DD` date into the Unix timestamp of its midnight
/// (UTC).  A malformed string, an impossible date, or one before the
/// epoch is the caller's mistake: a usage error.
pub fn parse_date(date_str: &str) -> (r: Result<i64, BenchError>)
    ensures
        match r {
            Ok(ts) => date_stamp(date_str@) == Some(ts as int) && 0 <= ts
                <= 300_000_000_000i64,
            Err(e) => date_stamp(date_str@) is None && e is Usage,
        },
{
    let n = date_str.unicode_len();
    if n != 10 || date_str.get_char(4) != '-' || date_str.get_char(7) != '-' {
        return Err(bad_date());
    }
    let ys = date_str.substring_char(0, 4);
    let ms = date_str.substring_char(5, 7);
    let ds = date_str.substring_char(8, 10);
    proof {
        assert(ys@ =~= date_str@.take(4));
        assert(ms@ =~= date_str@.subrange(5, 7));
        assert(ds@ =~= date_str@.skip(8));
        if all_digits(ys@) {
            lemma_digits_val_nonneg(ys@);
        }
        if all_digits(ms@) {
            lemma_digits_val_nonneg(ms@);
        }
        if all_digits(ds@) {
            lemma_digits_val_nonneg(ds@);
        }
    }
    let y = match parse_u64(ys) {
        Some(v) => v,
        None => {
            return Err(bad_date());
        },
    };
    let m = match parse_u64(ms) {
        Some(v) => v,
        None => {
            return Err(bad_date());
        },
    };
    let d = match parse_u64(ds) {
        Some(v) => v,
        None => {
            return Err(bad_date());
        },
    };
    if !(1970 <= y && y <= 9999 && 1 <= m && m <= 12 && 1 <= d && d <= month_days(y, m)) {
        return Err(bad_date());
    }
    let mut days: u64 = 0;
    let mut yi: u64 = 1970;
    while yi < y
        invariant
            1970 <= yi <= y <= 9999,
            days == days_to_year(yi as int),
            days <= 366 * (yi - 1970),
        decreases y - yi,
    {
        days = days + (if leap_year(yi) {
            366
        } else {
            365
        });
        yi = yi + 1;
    }
    let mut mi: u64 = 1;
    let ghost day_year: u64 = days;
    while mi < m
        invariant
            1 <= mi <= m <= 12,
            y <= 9999,
            days == day_year + days_to_month(y as int, mi as int),
            day_year <= 366 * 8029,
            days <= day_year + 31 * (mi - 1),
        decreases m - mi,
    {
        days = days + month_days(y, mi);
        mi = mi + 1;
    }
    let total_days = days + (d - 1);
    proof {
        assert(total_days <= 366 * 8029 + 31 * 11 + 30);
    }
    Ok((total_days as i64) * 86400)
}

fn bad_date() -> (e: BenchError)
    ensures
        e is Usage,
{
    BenchError::Usage(String::from_str("dates are written YYYY-MM-DD, from 1970 on"))
}

/// `s` left-padded with zeros to width `w`, as calendar fields are
/// written.
pub open spec fn zero_pad(s: Seq<char>, w: int) -> Seq<char> {
    if s.len() >= w {
        s
    } else {
        Seq::new((w - s.len()) as nat, |i: int| '0') + s
    }
}

/// A timestamp's human-readable form: `YYYY-MM-DD HH:MM:SS`.
pub open spec fn civil_text(y: int, m: int, d: int, hh: int, mm: int, ss: int) -> Seq<char> {
    zero_pad(dec_digits(y), 4) + "-"@ + zero_pad(dec_digits(m), 2) + "-"@ + zero_pad(
        dec_digits(d),
        2,
    ) + " "@ + zero_pad(dec_digits(hh), 2) + ":"@ + zero_pad(dec_digits(mm), 2) + ":"@ + zero_pad(
        dec_digits(ss),
        2,
    )
}

fn pad(n: u64, w: usize) -> (r: String)
    ensures
        r@ == zero_pad(dec_digits(n as int), w as int),
{
    let digits = u64_to_string(n);
    let len = digits.as_str().unicode_len();
    if len >= w {
        return digits;
    }
    let zeros = w - len;
    let mut out = String::new();
    let mut k: usize = 0;
    proof {
        reveal_strlit("0");
        assert(out@ =~= Seq::new(0, |i: int| '0'));
    }
    while k < zeros
        invariant
            0 <= k <= zeros,
            out@ =~= Seq::new(k as nat, |i: int| '0'),
        decreases zeros - k,
    {
        out.append("0");
        proof {
            reveal_strlit("0");
            assert(out@ =~= Seq::new((k + 1) as nat, |i: int| '0'));
        }
        k = k + 1;
    }
    out.append(digits.as_str());
    proof {
        assert(out@ =~= zero_pad(dec_digits(n as int), w as int));
    }
    out
}

proof fn lemma_months_sum(y: int)
    ensures
        days_to_month(y, 13) == days_in_year(y),
{
    reveal_with_fuel(days_to_month, 14);
}

/// Split a non-negative timestamp into its civil date and clock time:
/// the unique `(y, m, d, hh, mm, ss)` the timestamp denotes.
pub fn civil_from_timestamp(timestamp: i64) -> (r: (u64, u64, u64, u64, u64, u64))
    requires
        timestamp >= 0,
    ensures
        ({
            let (y, m, d, hh, mm, ss) = r;
            &&& 1970 <= y
            &&& 1 <= m <= 12
            &&& 1 <= d <= days_in_month(y as int, m as int)
            &&& hh < 24
            &&& mm < 60
            &&& ss < 60
            &&& civil_days(y as int, m as int, d as int) * 86400 + hh * 3600 + mm * 60 + ss
                == timestamp
        }),
{
    let total = timestamp as u64;
    let days = total / 86400;
    let rem = total % 86400;
    let hh = rem / 3600;
    let rem2 = rem % 3600;
    let mm = rem2 / 60;
    let ss = rem2 % 60;
    proof {
        assert(days <= 106751991167300);
        assert(total == days * 86400 + rem);
        assert(rem == hh * 3600 + rem2);
        assert(rem2 == mm * 60 + ss);
    }
    let mut y: u64 = 1970;
    let mut dleft = days;
    loop
        invariant
            1970 <= y,
            y - 1970 <= days - dleft,
            days <= 106751991167300,
            days == days_to_year(y as int) + dleft,
        ensures
            1970 <= y,
            days == days_to_year(y as int) + dleft,
            dleft < days_in_year(y as int),
        decreases dleft,
    {
        let ylen: u64 = if leap_year(y) {
            366
        } else {
            365
        };
        if dleft < ylen {
            break ;
        }
        dleft = dleft - ylen;
        y = y + 1;
    }
    let mut m: u64 = 1;
    let ghost day_of_year = dleft;
    loop
        invariant
            1 <= m <= 12,
            day_of_year == days_to_month(y as int, m as int) + dleft,
            day_of_year < days_in_year(y as int),
        ensures
            1 <= m <= 12,
            day_of_year == days_to_month(y as int, m as int) + dleft,
            day_of_year < days_in_year(y as int),
            dleft < days_in_month(y as int, m as int) || m == 12,
        decreases 12 - m,
    {
        let mlen = month_days(y, m);
        if dleft < mlen || m >= 12 {
            break ;
        }
        dleft = dleft - mlen;
        m = m + 1;
    }
    proof {
        if dleft >= days_in_month(y as int, m as int) {
            lemma_months_sum(y as int);
        }
    }
    let d = dleft + 1;
    (y, m, d, hh, mm, ss)
}

/// Render a non-negative timestamp as `YYYY-MM-DD HH:MM:SS` (UTC): the
/// written fields denote exactly the timestamp's civil date and time.
pub fn unix_timestamp_to_hr(timestamp: i64) -> (r: String)
    requires
        timestamp >= 0,
    ensures
        exists|y: int, m: int, d: int, hh: int, mm: int, ss: int|
            {
                &&& 1970 <= y
                &&& 1 <= m <= 12
                &&& 1 <= d <= days_in_month(y, m)
                &&& 0 <= hh < 24
                &&& 0 <= mm < 60
                &&& 0 <= ss < 60
                &&& civil_days(y, m, d) * 86400 + hh * 3600 + mm * 60 + ss == timestamp
                &&& r@ == #[trigger] civil_text(y, m, d, hh, mm, ss)
            },
{
    let (y, m, d, hh, mm, ss) = civil_from_timestamp(timestamp);
    let mut out = pad(y, 4);
    out.append("-");
    let p = pad(m, 2);
    out.append(p.as_str());
    out.append("-");
    let p = pad(d, 2);
    out.append(p.as_str());
    out.append(" ");
    let p = pad(hh, 2);
    out.append(p.as_str());
    out.append(":");
    let p = pad(mm, 2);
    out.append(p.as_str());
    out.append(":");
    let p = pad(ss, 2);
    out.append(p.as_str());
    proof {
        assert(out@ == civil_text(y as int, m as int, d as int, hh as int, mm as int, ss as int));
    }
    out
}

} // verus!
