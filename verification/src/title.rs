//! Page titles of the form `会議議事録 YYYY-MM-DD HH:MM`, in local time.
use vstd::prelude::*;

use crate::text::{decimal, digit_char};

verus! {

/// A local date and time, to the minute.
#[derive(Clone, Copy, Debug, PartialEq, Eq, Structural)]
pub struct LocalStamp {
    pub year: i32,
    pub month: u32,
    pub day: u32,
    pub hour: u32,
    pub minute: u32,
}

impl LocalStamp {
    /// Each field lies in its calendar range.
    pub open spec fn wf(self) -> bool {
        &&& 1 <= self.month <= 12
        &&& 1 <= self.day <= 31
        &&& self.hour <= 23
        &&& self.minute <= 59
    }
}

/// Two decimal digits of `n < 100`, zero-padded, as `%m`, `%d`, `%H` and
/// `%M` write them.
pub open spec fn two_digits(n: nat) -> Seq<char> {
    seq![digit_char(n / 10), digit_char(n % 10)]
}

/// The zeros that pad the decimal form of `a` to four digits.
pub open spec fn year_zeros(a: nat) -> Seq<char> {
    if a < 10 {
        seq!['0', '0', '0']
    } else if a < 100 {
        seq!['0', '0']
    } else if a < 1000 {
        seq!['0']
    } else {
        Seq::empty()
    }
}

/// The year as `%Y` writes it: four digits at least, zero-padded, with a
/// sign before years outside 0..=9999.
pub open spec fn year_text(y: int) -> Seq<char> {
    let a: nat = if y < 0 {
        (-y) as nat
    } else {
        y as nat
    };
    let sign: Seq<char> = if y < 0 {
        seq!['-']
    } else if y > 9999 {
        seq!['+']
    } else {
        Seq::empty()
    };
    sign + year_zeros(a) + decimal(a)
}

/// `st` formatted with `%Y-%m-%d %H:%M`, as `chrono` documents it.
pub open spec fn stamp_text(st: LocalStamp) -> Seq<char> {
    year_text(st.year as int) + seq!['-'] + two_digits(st.month as nat) + seq!['-'] + two_digits(
        st.day as nat,
    ) + seq![' '] + two_digits(st.hour as nat) + seq![':'] + two_digits(st.minute as nat)
}

/// The words before the date in every page title.
pub open spec fn title_prefix() -> Seq<char> {
    "会議議事録 "@
}

/// The page title for the local time `st`.
pub open spec fn title_of(st: LocalStamp) -> Seq<char> {
    title_prefix() + stamp_text(st)
}

/// The `chrono` format pattern of the date and time in a page title.
pub open spec fn title_time_pattern() -> Seq<char> {
    "%Y-%m-%d %H:%M"@
}

/// Whether `y` is a leap year of the proleptic Gregorian calendar.
pub open spec fn is_leap_year(y: int) -> bool {
    y % 4 == 0 && (y % 100 != 0 || y % 400 == 0)
}

/// Number of days of month `m` of year `y`.
pub open spec fn days_in_month(y: int, m: int) -> int {
    if m == 2 {
        if is_leap_year(y) {
            29
        } else {
            28
        }
    } else if m == 4 || m == 6 || m == 9 || m == 11 {
        30
    } else {
        31
    }
}

/// Days from 1970-01-01 to the date `y`-`m`-`d` of the proleptic Gregorian
/// calendar (negative before it).
pub open spec fn days_from_civil(y: int, m: int, d: int) -> int {
    let yy = if m <= 2 {
        y - 1
    } else {
        y
    };
    let era = yy / 400;
    let yoe = yy - era * 400;
    let mp = if m > 2 {
        m - 3
    } else {
        m + 9
    };
    let doy = (153 * mp + 2) / 5 + d - 1;
    let doe = yoe * 365 + yoe / 4 - yoe / 100 + doy;
    era * 146097 + doe - 719468
}

/// Seconds from 1970-01-01 00:00 to the start of the minute `st`.
pub open spec fn minute_start(st: LocalStamp) -> int {
    days_from_civil(st.year as int, st.month as int, st.day as int) * 86400 + st.hour * 3600
        + st.minute * 60
}

/// `st` is the calendar minute that holds the moment `secs` seconds after
/// 1970-01-01 00:00 (on a clock that reads that moment as such).
pub open spec fn stamp_at(st: LocalStamp, secs: int) -> bool {
    &&& st.wf()
    &&& st.day <= days_in_month(st.year as int, st.month as int)
    &&& minute_start(st) <= secs < minute_start(st) + 60
}

/// `t` is the moment `secs` (seconds since 1970-01-01 00:00 UTC) written
/// with the title pattern on a clock shifted by some offset from UTC of less
/// than a day, as a time zone shifts it.
pub open spec fn is_local_time_text(t: Seq<char>, secs: int) -> bool {
    exists|local: int, st: LocalStamp|
        -86400 < local - secs < 86400 && #[trigger] stamp_at(st, local) && t == stamp_text(st)
}

/// `t` is some moment written with the title pattern.
pub open spec fn is_stamp_text(t: Seq<char>) -> bool {
    exists|secs: int| is_local_time_text(t, secs)
}

/// `t` is the page title for the moment `secs` in some time zone.
pub open spec fn is_local_title(t: Seq<char>, secs: int) -> bool {
    exists|local: int, st: LocalStamp|
        -86400 < local - secs < 86400 && #[trigger] stamp_at(st, local) && t == title_of(st)
}

/// `t` is the page title for some moment in some time zone.
pub open spec fn is_some_local_title(t: Seq<char>) -> bool {
    exists|secs: int| is_local_title(t, secs)
}

/// The moment, in whole seconds since 1970-01-01 00:00 UTC, that `chrono`
/// reads from the RFC 3339 text `iso`.
pub uninterp spec fn rfc3339_seconds(iso: Seq<char>) -> int;

/// Whether `chrono` accepts `iso` as an RFC 3339 date and time.
pub uninterp spec fn rfc3339_accepted(iso: Seq<char>) -> bool;

/// Calls `chrono::DateTime::parse_from_rfc3339`, converts the instant to the
/// machine's time zone (`with_timezone(&Local)`) and formats it with
/// `format(pattern)`. Claimed: `Some` exactly when the text parses; the text
/// is then the parsed moment (named `rfc3339_seconds`) shifted by the local
/// offset, a `FixedOffset` of less than a day either way, in the proleptic
/// Gregorian calendar, written as `chrono`'s documentation gives `%Y`, `%m`,
/// `%d`, `%H` and `%M`. Which offset applies depends on the machine's time
/// zone and is not stated.
#[verifier::external_body]
fn local_time_text(iso: &str, pattern: &str) -> (res: Option<String>)
    requires
        pattern@ == title_time_pattern(),
    ensures
        res is Some <==> rfc3339_accepted(iso@),
        res is Some ==> is_local_time_text(res.unwrap()@, rfc3339_seconds(iso@)),
{
    chrono::DateTime::parse_from_rfc3339(iso).ok().map(
        |dt| dt.with_timezone(&chrono::Local).format(pattern).to_string(),
    )
}

/// Calls `chrono::Local::now` and formats it with `format(pattern)`.
/// Claimed: the text is some moment in the machine's time zone written as
/// `chrono`'s documentation gives `%Y`, `%m`, `%d`, `%H` and `%M`; which
/// moment it is depends on the clock and is not stated.
#[verifier::external_body]
fn local_now_text(pattern: &str) -> (res: String)
    requires
        pattern@ == title_time_pattern(),
    ensures
        is_stamp_text(res@),
{
    chrono::Local::now().format(pattern).to_string()
}

/// The page title for the formatted local time `stamp`.
pub fn title_from_stamp(stamp: &str) -> (res: String)
    ensures
        res@ == title_prefix() + stamp@,
{
    let mut title = "会議議事録 ".to_owned();
    title.append(stamp);
    title
}

/// The title of a page for a meeting that started at `started_at_iso`
/// (RFC 3339): `会議議事録 ` and the start as a local `%Y-%m-%d %H:%M`, or
/// the current local time where the text does not parse.
pub fn build_title(started_at_iso: &str) -> (res: String)
    ensures
        rfc3339_accepted(started_at_iso@) ==> is_local_title(res@, rfc3339_seconds(started_at_iso@)),
        !rfc3339_accepted(started_at_iso@) ==> is_some_local_title(res@),
{
    let pattern = "%Y-%m-%d %H:%M";
    let parsed = local_time_text(started_at_iso, pattern);
    let ghost secs: int;
    let stamp = match parsed {
        Some(t) => {
            proof {
                secs = rfc3339_seconds(started_at_iso@);
            }
            t
        },
        None => {
            let t = local_now_text(pattern);
            proof {
                secs = choose|s: int| is_local_time_text(t@, s);
            }
            t
        },
    };
    let res = title_from_stamp(stamp.as_str());
    proof {
        let (local, st) = choose|local: int, st: LocalStamp|
            -86400 < local - secs < 86400 && #[trigger] stamp_at(st, local) && stamp@ == stamp_text(
                st,
            );
        assert(res@ == title_of(st));
        assert(is_local_title(res@, secs));
    }
    res
}

/// An ASCII decimal digit.
pub open spec fn is_digit(c: char) -> bool {
    '0' <= c && c <= '9'
}

proof fn lemma_decimal_small(a: nat)
    requires
        a < 10000,
    ensures
        (year_zeros(a) + decimal(a)).len() == 4,
        forall|i: int| 0 <= i < 4 ==> is_digit(#[trigger] (year_zeros(a) + decimal(a))[i]),
{
    let z = year_zeros(a);
    if a < 10 {
        assert(decimal(a) == seq![digit_char(a)]);
    } else if a < 100 {
        assert(decimal(a / 10) == seq![digit_char(a / 10)]);
    } else if a < 1000 {
        assert(decimal(a / 100) == seq![digit_char(a / 100)]);
        assert((a / 10) / 10 == a / 100);
        assert(decimal(a / 10) == decimal(a / 100).push(digit_char((a / 10) % 10)));
    } else {
        assert(decimal(a / 1000) == seq![digit_char(a / 1000)]);
        assert((a / 100) / 10 == a / 1000);
        assert((a / 10) / 10 == a / 100);
        assert(decimal(a / 100) == decimal(a / 1000).push(digit_char((a / 100) % 10)));
        assert(decimal(a / 10) == decimal(a / 100).push(digit_char((a / 10) % 10)));
    }
}

/// The title that a page gets reads `会議議事録 YYYY-MM-DD HH:MM` for a year
/// in 0..=9999: the prefix, then four digits, a dash, two digits, a dash,
/// two digits, a space, two digits, a colon and two digits.
pub proof fn law_title_shape(st: LocalStamp)
    requires
        st.wf(),
        0 <= st.year <= 9999,
    ensures
        ({
            let t = title_of(st);
            let d = t.skip(6);
            &&& t.len() == 22
            &&& t.take(6) == title_prefix()
            &&& d[4] == '-' && d[7] == '-' && d[10] == ' ' && d[13] == ':'
            &&& forall|i: int|
                0 <= i < 16 && i != 4 && i != 7 && i != 10 && i != 13 ==> is_digit(#[trigger] d[i])
        }),
{
    reveal_strlit("会議議事録 ");
    let a = st.year as nat;
    lemma_decimal_small(a);
    let y = year_text(st.year as int);
    assert(y =~= year_zeros(a) + decimal(a));
    let t = title_of(st);
    let d = stamp_text(st);
    assert(t.take(6) =~= title_prefix());
    assert(t.skip(6) =~= d);
    assert forall|i: int|
        0 <= i < 16 && i != 4 && i != 7 && i != 10 && i != 13 implies is_digit(#[trigger] d[i]) by {
        if i < 4 {
            assert(d[i] == y[i]);
        }
    }
}

} // verus!
