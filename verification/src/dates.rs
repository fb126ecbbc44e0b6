//! The date-folder feature: a four-digit-style year directory and a
//! capitalized, locale-correct month directory derived from a file's
//! creation time.
//!
//! What the local time zone and the user's locale make of an epoch second is
//! the machine's business: the two calls below stand behind trusted
//! declarations that state only what holds of every outcome.  Everything
//! around them — rendering the year in decimal, capitalizing the month name
//! — is verified code.

use vstd::prelude::*;

use chrono::{Datelike, TimeZone};

verus! {

/// The two directory names the date-folder feature inserts.
pub struct DateFolders {
    /// Decimal year, inserted right after the destination root.
    pub year: String,
    /// Capitalized long month name, inserted last before the leaf.
    pub month: String,
}

/// Why a date could not be turned into folder names.
#[derive(Debug, PartialEq, Eq, Structural, Clone, Copy)]
pub enum DateError {
    /// The timestamp lies outside the calendar's range.
    TimestampOutOfRange,
    /// The locale's month names could not be loaded.
    LocaleUnavailable,
}

/// The last epoch second `chrono::DateTime::from_timestamp` accepts: the
/// end of its last calendar day, +262142-12-31 23:59:59.
pub const MAX_CALENDAR_SECOND: u64 = 8210266876799;

/// Relies on chrono: `DateTime::from_timestamp`, `Local.from_utc_datetime`
/// and the `Datelike` year and month of the result.  `from_timestamp`
/// succeeds exactly on the seconds of its calendar (for a non-negative
/// second, up to [`MAX_CALENDAR_SECOND`]); the local conversion and the
/// year and month reads never fail, and the month number is documented to
/// lie in 1..=12.  Which year and month come back depends on the machine's
/// time zone, so nothing more is stated of them.
#[verifier::external_body]
fn local_year_month(secs: u64) -> (r: Option<(i32, u32)>)
    ensures
        r is Some <==> secs <= MAX_CALENDAR_SECOND,
        r matches Some(p) ==> 1 <= p.1 <= 12,
{
    let secs = i64::try_from(secs).ok()?;
    let dt = chrono::DateTime::from_timestamp(secs, 0)?.naive_utc();
    let local = chrono::offset::Local.from_utc_datetime(&dt);
    Some((local.year(), local.month()))
}

/// Relies on locale: `Time::load_user_locale` and `long_month_name`, which
/// clones one of the twelve long month names of the user's locale (0-based
/// index).  The name depends on the user's locale, so nothing is stated of
/// its text.
#[verifier::external_body]
fn user_month_name(index: u32) -> (r: Option<String>)
    requires
        index < 12,
{
    match locale::Time::load_user_locale() {
        Ok(t) => Some(t.long_month_name(index as usize)),
        Err(_) => None,
    }
}

/// The decimal digits of `n`, most significant first (`n >= 0`).
pub open spec fn decimal_of(n: int) -> Seq<char>
    decreases n,
    when n >= 0
{
    if n < 10 {
        seq![digit_char(n)]
    } else {
        decimal_of(n / 10).push(digit_char(n % 10))
    }
}

/// The digit character for `0 <= d <= 9`.
pub open spec fn digit_char(d: int) -> char {
    (('0' as u32) + d) as char
}

/// The decimal rendering of any year, a minus sign before a negative one.
pub open spec fn year_decimal(y: int) -> Seq<char> {
    if y < 0 {
        seq!['-'] + decimal_of(-y)
    } else {
        decimal_of(y)
    }
}

/// `s` with an ASCII lowercase first character raised to uppercase.
pub open spec fn capitalized(s: Seq<char>) -> Seq<char> {
    if s.len() == 0 {
        s
    } else {
        seq![upper_char(s[0])] + s.skip(1)
    }
}

pub open spec fn upper_char(c: char) -> char {
    if 'a' <= c && c <= 'z' {
        ((c as u32) - 0x20) as char
    } else {
        c
    }
}

/// The one-character string of the uppercase letter for `c`.
fn upper_ascii_str(c: char) -> (r: String)
    requires
        'a' <= c && c <= 'z',
    ensures
        r@ == seq![upper_char(c)],
{
    proof {
        reveal_strlit("A");
        reveal_strlit("B");
        reveal_strlit("C");
        reveal_strlit("D");
        reveal_strlit("E");
        reveal_strlit("F");
        reveal_strlit("G");
        reveal_strlit("H");
        reveal_strlit("I");
        reveal_strlit("J");
        reveal_strlit("K");
        reveal_strlit("L");
        reveal_strlit("M");
        reveal_strlit("N");
        reveal_strlit("O");
        reveal_strlit("P");
        reveal_strlit("Q");
        reveal_strlit("R");
        reveal_strlit("S");
        reveal_strlit("T");
        reveal_strlit("U");
        reveal_strlit("V");
        reveal_strlit("W");
        reveal_strlit("X");
        reveal_strlit("Y");
        reveal_strlit("Z");
    }
    let s: &str = match c {
        'a' => "A",
        'b' => "B",
        'c' => "C",
        'd' => "D",
        'e' => "E",
        'f' => "F",
        'g' => "G",
        'h' => "H",
        'i' => "I",
        'j' => "J",
        'k' => "K",
        'l' => "L",
        'm' => "M",
        'n' => "N",
        'o' => "O",
        'p' => "P",
        'q' => "Q",
        'r' => "R",
        's' => "S",
        't' => "T",
        'u' => "U",
        'v' => "V",
        'w' => "W",
        'x' => "X",
        'y' => "Y",
        _ => "Z",
    };
    proof {
        assert(s@ =~= seq![upper_char(c)]);
    }
    s.to_owned()
}

/// `s` with its first character raised to uppercase when it is an ASCII
/// lowercase letter, as the month directory wants it.
pub fn upper_first(s: &str) -> (r: String)
    ensures
        r@ == capitalized(s@),
{
    let len = s.unicode_len();
    if len == 0 {
        return s.to_owned();
    }
    let c = s.get_char(0);
    let mut out: String = if 'a' <= c && c <= 'z' {
        upper_ascii_str(c)
    } else {
        proof {
            assert(s@.subrange(0, 1) =~= seq![upper_char(s@[0])]);
        }
        s.substring_char(0, 1).to_owned()
    };
    out.append(s.substring_char(1, len));
    proof {
        assert(s@.subrange(1, len as int) =~= s@.skip(1));
        assert(out@ =~= capitalized(s@));
    }
    out
}

/// The one-character string of the digit `d`.
fn digit_str(d: i64) -> (r: String)
    requires
        0 <= d <= 9,
    ensures
        r@ == seq![digit_char(d as int)],
{
    proof {
        reveal_strlit("0");
        reveal_strlit("1");
        reveal_strlit("2");
        reveal_strlit("3");
        reveal_strlit("4");
        reveal_strlit("5");
        reveal_strlit("6");
        reveal_strlit("7");
        reveal_strlit("8");
        reveal_strlit("9");
    }
    let s: &str = match d {
        0 => "0",
        1 => "1",
        2 => "2",
        3 => "3",
        4 => "4",
        5 => "5",
        6 => "6",
        7 => "7",
        8 => "8",
        _ => "9",
    };
    proof {
        assert(s@ =~= seq![digit_char(d as int)]);
    }
    s.to_owned()
}

/// The decimal digits of a non-negative number.
fn nonneg_decimal(n: i64) -> (r: String)
    requires
        n >= 0,
    ensures
        r@ == decimal_of(n as int),
    decreases n,
{
    if n < 10 {
        digit_str(n)
    } else {
        let mut r = nonneg_decimal(n / 10);
        let d = digit_str(n % 10);
        r.append(d.as_str());
        proof {
            assert(decimal_of((n / 10) as int).push(digit_char((n % 10) as int)) =~= decimal_of(
                (n / 10) as int,
            ) + seq![digit_char((n % 10) as int)]);
        }
        r
    }
}

/// The decimal rendering of a year.
pub fn year_string(y: i32) -> (r: String)
    ensures
        r@ == year_decimal(y as int),
{
    if y >= 0 {
        nonneg_decimal(y as i64)
    } else {
        proof {
            reveal_strlit("-");
        }
        let mut r: String = "-".to_owned();
        let digits = nonneg_decimal(-(y as i64));
        r.append(digits.as_str());
        proof {
            assert("-"@ =~= seq!['-']);
        }
        r
    }
}

/// The year and month directory names for an epoch second: the local
/// calendar year in decimal, and the user locale's long month name with its
/// first letter capitalized.  A second beyond the calendar fails with
/// [`DateError::TimestampOutOfRange`], exactly; within the calendar only
/// the locale's month names can still fail.  Which year and name come back
/// depends on the machine, so the contract pins their shape, not their
/// text.
pub fn date_folders(secs: u64) -> (r: Result<DateFolders, DateError>)
    ensures
        r == Err::<DateFolders, DateError>(DateError::TimestampOutOfRange) <==> secs
            > MAX_CALENDAR_SECOND,
        r matches Ok(df) ==> (exists|y: int| df.year@ == year_decimal(y)) && (exists|raw: Seq<
            char,
        >| df.month@ == capitalized(raw)),
{
    match local_year_month(secs) {
        None => Err(DateError::TimestampOutOfRange),
        Some((y, m)) => {
            match user_month_name(m - 1) {
                None => Err(DateError::LocaleUnavailable),
                Some(raw) => {
                    let year = year_string(y);
                    let month = upper_first(raw.as_str());
                    proof {
                        assert(year@ == year_decimal(y as int));
                    }
                    Ok(DateFolders { year, month })
                },
            }
        },
    }
}

} // verus!
