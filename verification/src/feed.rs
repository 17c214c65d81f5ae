//! Feed entries and their ordering.
//!
//! A resolved publication timestamp is held as plain values: milliseconds
//! since the Unix epoch, computed from the civil date and time the page
//! exposed. Entries are sorted by that timestamp, newest first, with ties
//! keeping their discovery order.

use vstd::prelude::*;

use crate::date_resolver::is_digit;
use crate::text::str_to_chars;

verus! {

/// An instant, as milliseconds since the Unix epoch.
#[derive(PartialEq, Eq, Structural, Clone, Copy, Debug)]
pub struct Timestamp {
    pub millis: i64,
}

/// A year of the proleptic Gregorian calendar divisible by 4 but not by
/// 100, or divisible by 400.
pub open spec fn is_leap_year(y: int) -> bool {
    (y % 4 == 0 && y % 100 != 0) || y % 400 == 0
}

/// Days in the given month of the given year.
pub open spec fn days_in_month(y: int, m: int) -> int {
    if m == 2 {
        if is_leap_year(y) {
            29
        } else {
            28
        }
    } else if m == 4 || m == 6 || m == 9 || m == 11 {
        30
    } else {
        31
    }
}

/// Days of all years before year `y`, counting from year 1.
pub open spec fn days_before_year(y: int) -> int {
    365 * (y - 1) + (y - 1) / 4 - (y - 1) / 100 + (y - 1) / 400
}

/// Days of all months of year `y` before month `m`.
pub open spec fn days_before_month(y: int, m: int) -> int {
    let plain: int = if m == 1 {
        0
    } else if m == 2 {
        31
    } else if m == 3 {
        59
    } else if m == 4 {
        90
    } else if m == 5 {
        120
    } else if m == 6 {
        151
    } else if m == 7 {
        181
    } else if m == 8 {
        212
    } else if m == 9 {
        243
    } else if m == 10 {
        273
    } else if m == 11 {
        304
    } else {
        334
    };
    if m > 2 && is_leap_year(y) {
        plain + 1
    } else {
        plain
    }
}

/// Days between the Unix epoch and the given civil date (years 1 to
/// 9999).
pub open spec fn days_since_epoch(y: int, m: int, d: int) -> int {
    days_before_year(y) + days_before_month(y, m) + (d - 1) - 719162
}

/// The given civil date and time of day as milliseconds since the epoch,
/// shifted by a zone offset in minutes.
pub open spec fn civil_millis(
    y: int,
    m: int,
    d: int,
    hh: int,
    mm: int,
    ss: int,
    ms: int,
    offset_minutes: int,
) -> int {
    days_since_epoch(y, m, d) * 86400000 + hh * 3600000 + mm * 60000 + ss * 1000 + ms
        - offset_minutes * 60000
}

/// A valid civil date within the supported range.
pub open spec fn valid_date(y: int, m: int, d: int) -> bool {
    1 <= y <= 9999 && 1 <= m <= 12 && 1 <= d <= days_in_month(y, m)
}

/// The numeric value of a digit character.
pub open spec fn digit_val(c: char) -> int {
    (c as int) - ('0' as int)
}

/// The first position at or after `i` that is past the end or holds a
/// non-digit.
pub open spec fn digits_end(s: Seq<char>, i: int) -> int
    decreases s.len() - i + 1,
{
    if i < 0 || i >= s.len() || !is_digit(s[i]) {
        i
    } else {
        digits_end(s, i + 1)
    }
}

/// The fractional-second digits starting at `i`, read as milliseconds:
/// the first three digits, scaled by position.
pub open spec fn frac_millis(s: Seq<char>, i: int) -> int {
    let e = digits_end(s, i);
    let d0 = if e > i {
        digit_val(s[i])
    } else {
        0
    };
    let d1 = if e > i + 1 {
        digit_val(s[i + 1])
    } else {
        0
    };
    let d2 = if e > i + 2 {
        digit_val(s[i + 2])
    } else {
        0
    };
    d0 * 100 + d1 * 10 + d2
}

/// The zone offset in minutes written at `i`, which must end the text:
/// `Z` for zero, or a signed `hh:mm`.
pub open spec fn zone_offset_minutes(s: Seq<char>, i: int) -> Option<int> {
    if i == s.len() - 1 && s[i] == 'Z' {
        Some(0)
    } else if i == s.len() - 6 && (s[i] == '+' || s[i] == '-') && is_digit(s[i + 1]) && is_digit(
        s[i + 2],
    ) && s[i + 3] == ':' && is_digit(s[i + 4]) && is_digit(s[i + 5]) {
        let hh = digit_val(s[i + 1]) * 10 + digit_val(s[i + 2]);
        let mm = digit_val(s[i + 4]) * 10 + digit_val(s[i + 5]);
        if hh <= 23 && mm <= 59 {
            if s[i] == '+' {
                Some(hh * 60 + mm)
            } else {
                Some(-(hh * 60 + mm))
            }
        } else {
            None
        }
    } else {
        None
    }
}

/// The date-and-time shape `dddd-dd-ddTdd:dd:dd` opens the text.
pub open spec fn iso_head_shape(s: Seq<char>) -> bool {
    s.len() >= 20 && crate::date_resolver::date_shape_at(s, 0)
}

/// The text as a timestamp in the full date-and-time form: civil date,
/// time of day, optional fractional seconds, and a closing zone offset.
pub open spec fn rfc3339_millis(s: Seq<char>) -> Option<int> {
    if !iso_head_shape(s) {
        None
    } else {
        let y = digit_val(s[0]) * 1000 + digit_val(s[1]) * 100 + digit_val(s[2]) * 10
            + digit_val(s[3]);
        let m = digit_val(s[5]) * 10 + digit_val(s[6]);
        let d = digit_val(s[8]) * 10 + digit_val(s[9]);
        let hh = digit_val(s[11]) * 10 + digit_val(s[12]);
        let mm = digit_val(s[14]) * 10 + digit_val(s[15]);
        let ss = digit_val(s[17]) * 10 + digit_val(s[18]);
        if !valid_date(y, m, d) || hh > 23 || mm > 59 || ss > 59 {
            None
        } else if s[19] == '.' {
            let e = digits_end(s, 20);
            if e == 20 {
                None
            } else {
                match zone_offset_minutes(s, e) {
                    Some(off) => Some(civil_millis(y, m, d, hh, mm, ss, frac_millis(s, 20), off)),
                    None => None,
                }
            }
        } else {
            match zone_offset_minutes(s, 19) {
                Some(off) => Some(civil_millis(y, m, d, hh, mm, ss, 0, off)),
                None => None,
            }
        }
    }
}

/// The text up to its first space, as a `year/month/day` date at noon;
/// month and day may be one or two digits.
pub open spec fn slash_date_millis(s: Seq<char>) -> Option<int> {
    let t = match crate::text::find_from(s, " "@, 0) {
        Some(sp) => s.subrange(0, sp),
        None => s,
    };
    slash_token_millis(t)
}

/// A whole token of the shape `dddd/d[d]/d[d]`, as a date at noon.
pub open spec fn slash_token_millis(t: Seq<char>) -> Option<int> {
    if t.len() < 8 || t.len() > 10 {
        None
    } else if !(is_digit(t[0]) && is_digit(t[1]) && is_digit(t[2]) && is_digit(t[3]) && t[4]
        == '/') {
        None
    } else {
        let y = digit_val(t[0]) * 1000 + digit_val(t[1]) * 100 + digit_val(t[2]) * 10
            + digit_val(t[3]);
        let m_end = digits_end(t, 5);
        if !(m_end == 6 || m_end == 7) || m_end >= t.len() || t[m_end] != '/' {
            None
        } else {
            let m = if m_end == 6 {
                digit_val(t[5])
            } else {
                digit_val(t[5]) * 10 + digit_val(t[6])
            };
            let d_end = digits_end(t, m_end + 1);
            if d_end != t.len() || !(d_end - (m_end + 1) == 1 || d_end - (m_end + 1) == 2) {
                None
            } else {
                let d = if d_end - (m_end + 1) == 1 {
                    digit_val(t[m_end + 1])
                } else {
                    digit_val(t[m_end + 1]) * 10 + digit_val(t[m_end + 2])
                };
                if valid_date(y, m, d) {
                    Some(civil_millis(y, m, d, 12, 0, 0, 0, 0))
                } else {
                    None
                }
            }
        }
    }
}

/// What the date parser accepts: the full form first, then the
/// site-native `year/month/day` form.
pub open spec fn parse_date_spec(s: Seq<char>) -> Option<int> {
    match rfc3339_millis(s) {
        Some(t) => Some(t),
        None => slash_date_millis(s),
    }
}

/// Executable test for a digit character.
fn is_digit_char(c: char) -> (r: bool)
    ensures
        r == is_digit(c),
{
    '0' <= c && c <= '9'
}

/// The numeric value of a digit character, executably.
fn digit_value(c: char) -> (r: i64)
    requires
        is_digit(c),
    ensures
        r as int == digit_val(c),
        0 <= r <= 9,
{
    match c {
        '0' => 0,
        '1' => 1,
        '2' => 2,
        '3' => 3,
        '4' => 4,
        '5' => 5,
        '6' => 6,
        '7' => 7,
        '8' => 8,
        _ => {
            assert(c == '9');
            9
        },
    }
}

/// Every position before the digit run's end holds a digit, and the end
/// stays within the text.
proof fn lemma_digits_end_digits(s: Seq<char>, i: int)
    requires
        0 <= i <= s.len(),
    ensures
        i <= digits_end(s, i) <= s.len(),
        forall|k: int| i <= k < digits_end(s, i) ==> is_digit(#[trigger] s[k]),
    decreases s.len() - i + 1,
{
    if i < s.len() && is_digit(s[i]) {
        lemma_digits_end_digits(s, i + 1);
    }
}

/// Executable mirror of [`digits_end`].
fn digits_end_exec(s: &Vec<char>, i: usize) -> (r: usize)
    requires
        i <= s@.len(),
    ensures
        r as int == digits_end(s@, i as int),
        i <= r <= s@.len(),
{
    let n = s.len();
    let mut j = i;
    while j < n && is_digit_char(s[j])
        invariant
            i <= j <= n,
            s@.len() == n,
            digits_end(s@, i as int) == digits_end(s@, j as int),
        decreases n - j,
    {
        j = j + 1;
    }
    j
}

/// Executable mirror of [`days_in_month`].
fn days_in_month_exec(y: i64, m: i64) -> (r: i64)
    requires
        1 <= y <= 9999,
        1 <= m <= 12,
    ensures
        r as int == days_in_month(y as int, m as int),
{
    if m == 2 {
        if (y % 4 == 0 && y % 100 != 0) || y % 400 == 0 {
            29
        } else {
            28
        }
    } else if m == 4 || m == 6 || m == 9 || m == 11 {
        30
    } else {
        31
    }
}

/// The given valid civil date, time and zone offset as epoch
/// milliseconds, executably.
fn civil_millis_exec(y: i64, m: i64, d: i64, hh: i64, mm: i64, ss: i64, ms: i64, off: i64) -> (r:
    i64)
    requires
        valid_date(y as int, m as int, d as int),
        0 <= hh <= 23,
        0 <= mm <= 59,
        0 <= ss <= 59,
        0 <= ms <= 999,
        -1439 <= off <= 1439,
    ensures
        r as int == civil_millis(
            y as int,
            m as int,
            d as int,
            hh as int,
            mm as int,
            ss as int,
            ms as int,
            off as int,
        ),
{
    let before_year = 365 * (y - 1) + (y - 1) / 4 - (y - 1) / 100 + (y - 1) / 400;
    let plain: i64 = if m == 1 {
        0
    } else if m == 2 {
        31
    } else if m == 3 {
        59
    } else if m == 4 {
        90
    } else if m == 5 {
        120
    } else if m == 6 {
        151
    } else if m == 7 {
        181
    } else if m == 8 {
        212
    } else if m == 9 {
        243
    } else if m == 10 {
        273
    } else if m == 11 {
        304
    } else {
        334
    };
    let leap_extra: i64 = if m > 2 && ((y % 4 == 0 && y % 100 != 0) || y % 400 == 0) {
        1
    } else {
        0
    };
    let days = before_year + plain + leap_extra + (d - 1) - 719162;
    days * 86400000 + hh * 3600000 + mm * 60000 + ss * 1000 + ms - off * 60000
}

/// Parses the full date-and-time form, mirroring [`rfc3339_millis`].
fn parse_rfc3339_exec(s: &Vec<char>) -> (r: Option<i64>)
    ensures
        match r {
            Some(t) => rfc3339_millis(s@) == Some(t as int),
            None => rfc3339_millis(s@) is None,
        },
{
    let n = s.len();
    if n < 20 {
        return None;
    }
    if !crate::date_resolver::date_shape_check(s, 0) {
        return None;
    }
    let y = digit_value(s[0]) * 1000 + digit_value(s[1]) * 100 + digit_value(s[2]) * 10
        + digit_value(s[3]);
    let m = digit_value(s[5]) * 10 + digit_value(s[6]);
    let d = digit_value(s[8]) * 10 + digit_value(s[9]);
    let hh = digit_value(s[11]) * 10 + digit_value(s[12]);
    let mm = digit_value(s[14]) * 10 + digit_value(s[15]);
    let ss = digit_value(s[17]) * 10 + digit_value(s[18]);
    if y < 1 || m < 1 || m > 12 || d < 1 {
        return None;
    }
    if d > days_in_month_exec(y, m) {
        return None;
    }
    if hh > 23 || mm > 59 || ss > 59 {
        return None;
    }
    let (ms, zpos): (i64, usize) = if s[19] == '.' {
        let e = digits_end_exec(s, 20);
        proof {
            lemma_digits_end_digits(s@, 20);
        }
        if e == 20 {
            return None;
        }
        let d0 = digit_value(s[20]);
        let d1 = if e > 21 {
            digit_value(s[21])
        } else {
            0
        };
        let d2 = if e > 22 {
            digit_value(s[22])
        } else {
            0
        };
        (d0 * 100 + d1 * 10 + d2, e)
    } else {
        (0, 19)
    };
    proof {
        if s@[19] == '.' {
            assert(ms as int == frac_millis(s@, 20));
        }
    }
    let off: i64 = if zpos == n - 1 && s[zpos] == 'Z' {
        0
    } else if n >= 6 && zpos == n - 6 && (s[zpos] == '+' || s[zpos] == '-') && is_digit_char(
        s[zpos + 1],
    ) && is_digit_char(s[zpos + 2]) && s[zpos + 3] == ':' && is_digit_char(s[zpos + 4])
        && is_digit_char(s[zpos + 5]) {
        let ohh = digit_value(s[zpos + 1]) * 10 + digit_value(s[zpos + 2]);
        let omm = digit_value(s[zpos + 4]) * 10 + digit_value(s[zpos + 5]);
        if ohh > 23 || omm > 59 {
            return None;
        }
        if s[zpos] == '+' {
            ohh * 60 + omm
        } else {
            -(ohh * 60 + omm)
        }
    } else {
        proof {
            assert(zone_offset_minutes(s@, zpos as int) is None);
        }
        return None;
    };
    proof {
        assert(zone_offset_minutes(s@, zpos as int) == Some(off as int));
    }
    Some(civil_millis_exec(y, m, d, hh, mm, ss, ms, off))
}

/// Parses the site-native slash form, mirroring [`slash_date_millis`].
fn parse_slash_exec(s: &Vec<char>) -> (r: Option<i64>)
    ensures
        match r {
            Some(t) => slash_date_millis(s@) == Some(t as int),
            None => slash_date_millis(s@) is None,
        },
{
    let sp = str_to_chars(" ");
    proof {
        reveal_strlit(" ");
    }
    let token = match crate::text::find_in(s, &sp, 0) {
        Some(p) => {
            proof {
                crate::text::lemma_find_from_spec(s@, sp@, 0);
            }
            crate::text::subvec(s, 0, p)
        },
        None => crate::text::subvec(s, 0, s.len()),
    };
    proof {
        assert(s@.subrange(0, s@.len() as int) =~= s@);
    }
    let t = &token;
    let n = t.len();
    if n < 8 || n > 10 {
        return None;
    }
    if !(is_digit_char(t[0]) && is_digit_char(t[1]) && is_digit_char(t[2]) && is_digit_char(t[3])
        && t[4] == '/') {
        return None;
    }
    let y = digit_value(t[0]) * 1000 + digit_value(t[1]) * 100 + digit_value(t[2]) * 10
        + digit_value(t[3]);
    let m_end = digits_end_exec(t, 5);
    proof {
        lemma_digits_end_digits(t@, 5);
    }
    if !(m_end == 6 || m_end == 7) || m_end >= n || t[m_end] != '/' {
        return None;
    }
    let m = if m_end == 6 {
        digit_value(t[5])
    } else {
        digit_value(t[5]) * 10 + digit_value(t[6])
    };
    let d_end = digits_end_exec(t, m_end + 1);
    proof {
        lemma_digits_end_digits(t@, m_end + 1);
    }
    if d_end != n || !(d_end - (m_end + 1) == 1 || d_end - (m_end + 1) == 2) {
        return None;
    }
    let d = if d_end - (m_end + 1) == 1 {
        digit_value(t[m_end + 1])
    } else {
        digit_value(t[m_end + 1]) * 10 + digit_value(t[m_end + 2])
    };
    if y < 1 || m < 1 || m > 12 || d < 1 {
        return None;
    }
    if d > days_in_month_exec(y, m) {
        return None;
    }
    Some(civil_millis_exec(y, m, d, 12, 0, 0, 0, 0))
}

/// Parses a resolved or fallback date string into a timestamp: the full
/// date-and-time form first, the site-native slash form second.
pub fn parse_iso_date(date_str: &str) -> (r: Option<Timestamp>)
    ensures
        match r {
            Some(ts) => parse_date_spec(date_str@) == Some(ts.millis as int),
            None => parse_date_spec(date_str@) is None,
        },
{
    let s = str_to_chars(date_str);
    match parse_rfc3339_exec(&s) {
        Some(t) => Some(Timestamp { millis: t }),
        None => match parse_slash_exec(&s) {
            Some(t) => Some(Timestamp { millis: t }),
            None => None,
        },
    }
}

/// One normalized feed entry: the only unit that crosses into feed
/// assembly.
pub struct RssItem {
    pub title: String,
    pub link: String,
    pub description: String,
    pub pub_date: Timestamp,
}

impl View for RssItem {
    type V = (Seq<char>, Seq<char>, Seq<char>, int);

    open spec fn view(&self) -> Self::V {
        (self.title@, self.link@, self.description@, self.pub_date.millis as int)
    }
}

/// The entries an entry list stands for.
pub open spec fn items_view(s: Seq<RssItem>) -> Seq<(Seq<char>, Seq<char>, Seq<char>, int)> {
    s.map_values(|x: RssItem| x@)
}

/// One entry placed into a list sorted newest first, after every entry
/// at least as new: a stable insertion.
pub open spec fn insert_desc(
    x: (Seq<char>, Seq<char>, Seq<char>, int),
    s: Seq<(Seq<char>, Seq<char>, Seq<char>, int)>,
) -> Seq<(Seq<char>, Seq<char>, Seq<char>, int)>
    decreases s.len(),
{
    if s.len() == 0 {
        seq![x]
    } else if s[0].3 >= x.3 {
        seq![s[0]] + insert_desc(x, s.subrange(1, s.len() as int))
    } else {
        seq![x] + s
    }
}

/// The entry list sorted by timestamp, newest first, stably: ties keep
/// their discovery order.
pub open spec fn sort_desc(s: Seq<(Seq<char>, Seq<char>, Seq<char>, int)>) -> Seq<
    (Seq<char>, Seq<char>, Seq<char>, int),
>
    decreases s.len(),
{
    if s.len() == 0 {
        Seq::empty()
    } else {
        insert_desc(s[s.len() - 1], sort_desc(s.subrange(0, s.len() - 1)))
    }
}

/// Timestamps never increase along the sorted list.
pub open spec fn sorted_desc(s: Seq<(Seq<char>, Seq<char>, Seq<char>, int)>) -> bool {
    forall|i: int| 0 <= i < s.len() - 1 ==> (#[trigger] s[i]).3 >= s[i + 1].3
}

/// A stable descending insertion keeps the list sorted.
proof fn lemma_insert_desc_sorted(
    x: (Seq<char>, Seq<char>, Seq<char>, int),
    s: Seq<(Seq<char>, Seq<char>, Seq<char>, int)>,
)
    requires
        sorted_desc(s),
    ensures
        sorted_desc(insert_desc(x, s)),
        insert_desc(x, s).len() == s.len() + 1,
    decreases s.len(),
{
    if s.len() == 0 {
    } else if s[0].3 >= x.3 {
        let rest = s.subrange(1, s.len() as int);
        assert(sorted_desc(rest)) by {
            assert forall|i: int| 0 <= i < rest.len() - 1 implies (#[trigger] rest[i]).3
                >= rest[i + 1].3 by {
                assert(rest[i] == s[i + 1]);
                assert(rest[i + 1] == s[i + 2]);
            }
        }
        lemma_insert_desc_sorted(x, rest);
        let ins = insert_desc(x, rest);
        let out = seq![s[0]] + ins;
        assert forall|i: int| 0 <= i < out.len() - 1 implies (#[trigger] out[i]).3 >= out[i
            + 1].3 by {
            if i == 0 {
                if rest.len() == 0 {
                    assert(out[1] == x);
                } else if rest[0].3 >= x.3 {
                    assert(ins[0] == rest[0]);
                    assert(rest[0] == s[1]);
                } else {
                    assert(ins[0] == x);
                }
            } else {
                assert(out[i] == ins[i - 1]);
                assert(out[i + 1] == ins[i]);
            }
        }
    } else {
        let out = seq![x] + s;
        assert forall|i: int| 0 <= i < out.len() - 1 implies (#[trigger] out[i]).3 >= out[i
            + 1].3 by {
            if i == 0 {
                assert(out[1] == s[0]);
            } else {
                assert(out[i] == s[i - 1]);
                assert(out[i + 1] == s[i]);
            }
        }
    }
}

/// The sorted entry list is sorted, newest first.
pub proof fn law_sort_desc_sorted(s: Seq<(Seq<char>, Seq<char>, Seq<char>, int)>)
    ensures
        sorted_desc(sort_desc(s)),
        sort_desc(s).len() == s.len(),
    decreases s.len(),
{
    if s.len() > 0 {
        law_sort_desc_sorted(s.subrange(0, s.len() - 1));
        lemma_insert_desc_sorted(s[s.len() - 1], sort_desc(s.subrange(0, s.len() - 1)));
    }
}

/// A field-by-field copy of one entry.
fn clone_item(x: &RssItem) -> (r: RssItem)
    ensures
        r@ == x@,
{
    RssItem {
        title: x.title.clone(),
        link: x.link.clone(),
        description: x.description.clone(),
        pub_date: x.pub_date,
    }
}

/// A stable insertion at a position equals the recursive insertion.
proof fn lemma_insert_desc_at(
    x: (Seq<char>, Seq<char>, Seq<char>, int),
    s: Seq<(Seq<char>, Seq<char>, Seq<char>, int)>,
    p: int,
)
    requires
        0 <= p <= s.len(),
        forall|k: int| 0 <= k < p ==> (#[trigger] s[k]).3 >= x.3,
        p < s.len() ==> !(s[p].3 >= x.3),
    ensures
        insert_desc(x, s) == s.insert(p, x),
    decreases p,
{
    if p == 0 {
        if s.len() == 0 {
            assert(insert_desc(x, s) =~= s.insert(0, x));
        } else {
            assert(seq![x] + s =~= s.insert(0, x));
        }
    } else {
        let rest = s.subrange(1, s.len() as int);
        assert(s[0].3 >= x.3);
        assert forall|k: int| 0 <= k < p - 1 implies (#[trigger] rest[k]).3 >= x.3 by {
            assert(rest[k] == s[k + 1]);
        }
        if p - 1 < rest.len() {
            assert(rest[p - 1] == s[p]);
        }
        lemma_insert_desc_at(x, rest, p - 1);
        assert(seq![s[0]] + rest.insert(p - 1, x) =~= s.insert(p, x));
    }
}

/// Inserts one entry after every entry at least as new.
fn insert_item_desc(out: &mut Vec<RssItem>, x: RssItem)
    ensures
        items_view(final(out)@) == insert_desc(x@, items_view(old(out)@)),
{
    let ghost s = items_view(out@);
    let mut p: usize = 0;
    while p < out.len() && out[p].pub_date.millis >= x.pub_date.millis
        invariant
            0 <= p <= out@.len(),
            out@ == old(out)@,
            s == items_view(out@),
            forall|k: int| 0 <= k < p ==> (#[trigger] s[k]).3 >= x@.3,
        decreases out@.len() - p,
    {
        proof {
            assert(s[p as int] == out@[p as int]@);
        }
        p = p + 1;
    }
    proof {
        if p < out@.len() {
            assert(s[p as int] == out@[p as int]@);
        }
        lemma_insert_desc_at(x@, s, p as int);
    }
    out.insert(p, x);
    proof {
        assert(items_view(out@) =~= s.insert(p as int, x@));
    }
}

/// Sorts feed entries by timestamp, newest first, stably: entries with
/// one timestamp keep their discovery order.
pub fn sort_items_by_date(items: &Vec<RssItem>) -> (r: Vec<RssItem>)
    ensures
        items_view(r@) == sort_desc(items_view(items@)),
        sorted_desc(items_view(r@)),
{
    let ghost all = items_view(items@);
    let mut out: Vec<RssItem> = Vec::new();
    let mut i: usize = 0;
    proof {
        assert(all.subrange(0, 0) =~= Seq::<(Seq<char>, Seq<char>, Seq<char>, int)>::empty());
        assert(items_view(out@) =~= sort_desc(all.subrange(0, 0)));
    }
    while i < items.len()
        invariant
            0 <= i <= items@.len(),
            all == items_view(items@),
            items_view(out@) == sort_desc(all.subrange(0, i as int)),
        decreases items@.len() - i,
    {
        let x = clone_item(&items[i]);
        proof {
            assert(x@ == all[i as int]);
        }
        insert_item_desc(&mut out, x);
        proof {
            let pre = all.subrange(0, i + 1);
            assert(pre[pre.len() - 1] == all[i as int]);
            assert(pre.subrange(0, pre.len() - 1) =~= all.subrange(0, i as int));
        }
        i = i + 1;
    }
    proof {
        assert(all.subrange(0, all.len() as int) =~= all);
        law_sort_desc_sorted(all);
    }
    out
}

/// The entry an article page yields, given the reference's title, link
/// and advisory date and an instant to stand in when no date parses:
/// the recovered body rendered to markup, and the page's resolved date,
/// else the advisory date, else the stand-in.
pub open spec fn feed_entry_spec(
    title: Seq<char>,
    link: Seq<char>,
    page: Seq<char>,
    advisory: Seq<char>,
    now: int,
) -> Option<(Seq<char>, Seq<char>, Seq<char>, int)> {
    match crate::article_extractor::article_content_spec(page) {
        Some(body) => {
            let date_str = match crate::date_resolver::resolve_date_spec(page) {
                Some(d) => d,
                None => advisory,
            };
            let ts = match parse_date_spec(date_str) {
                Some(t) => t,
                None => now,
            };
            Some(
                (
                    title,
                    link,
                    crate::article_extractor::rendered_html(
                        crate::article_extractor::preprocess_spec(body),
                    ),
                    ts,
                ),
            )
        },
        None => None,
    }
}

/// Builds the feed entry of one fetched article page, or nothing when no
/// body strategy yields viable content. `now` stands in only when
/// neither the page nor the advisory date parses.
pub fn build_feed_entry(
    title: &String,
    link: &String,
    page_html: &str,
    advisory_date: &String,
    now: Timestamp,
) -> (r: Option<RssItem>)
    ensures
        match r {
            Some(item) => feed_entry_spec(
                title@,
                link@,
                page_html@,
                advisory_date@,
                now.millis as int,
            ) == Some(item@),
            None => feed_entry_spec(
                title@,
                link@,
                page_html@,
                advisory_date@,
                now.millis as int,
            ) is None,
        },
{
    let body = match crate::article_extractor::extract_article_content(page_html) {
        Ok(b) => b,
        Err(_) => {
            return None;
        },
    };
    let description = crate::article_extractor::markdown_to_html(body.as_str());
    let date_str = match crate::date_resolver::extract_article_date(page_html) {
        Some(d) => d,
        None => advisory_date.clone(),
    };
    let pub_date = match parse_iso_date(date_str.as_str()) {
        Some(ts) => ts,
        None => now,
    };
    Some(RssItem { title: title.clone(), link: link.clone(), description, pub_date })
}

} // verus!
