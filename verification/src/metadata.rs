//! Meeting metadata: dates and times as plain values, what a recording's
//! file name says about its meeting, and which source wins for each field.
use vstd::prelude::*;

use chrono::{Datelike, Timelike};

use crate::models::{FileMetadata, MetadataSource};
use crate::orchestrator::ov;
use crate::paths::{file_stem, file_stem_spec};
use crate::text::{chars_of, decimal_value, digit_value, is_digit, string_of, sviews};

verus! {

broadcast use vstd::string::group_string_axioms;

// ---------------------------------------------------------------------------
// Dates and times
// ---------------------------------------------------------------------------

/// A calendar date of the proleptic Gregorian calendar.
#[derive(Clone, Copy, Debug, PartialEq, Eq, Structural)]
pub struct Date {
    pub year: i32,
    pub month: u32,
    pub day: u32,
}

/// A time of day, to the second.
#[derive(Clone, Copy, Debug, PartialEq, Eq, Structural)]
pub struct Time {
    pub hour: u32,
    pub minute: u32,
    pub second: u32,
}

/// A date and a time of day, without a time zone.
#[derive(Clone, Copy, Debug, PartialEq, Eq, Structural)]
pub struct DateTime {
    pub date: Date,
    pub time: Time,
}

pub open spec fn is_leap_year(y: int) -> bool {
    (y % 4 == 0 && y % 100 != 0) || y % 400 == 0
}

pub open spec fn days_in_month(y: int, m: int) -> int {
    if m == 2 {
        if is_leap_year(y) {
            29
        } else {
            28
        }
    } else if m == 4 || m == 6 || m == 9 || m == 11 {
        30
    } else {
        31
    }
}

/// A date that exists and that `chrono::NaiveDate` can hold (years
/// -262143 to 262142).
pub open spec fn valid_date(y: int, m: int, d: int) -> bool {
    -262143 <= y <= 262142 && 1 <= m <= 12 && 1 <= d <= days_in_month(y, m)
}

/// A time of day without a leap second.
pub open spec fn valid_time(h: int, m: int, s: int) -> bool {
    0 <= h < 24 && 0 <= m < 60 && 0 <= s < 60
}

/// `chrono::NaiveDate::from_ymd_opt(year, month, day).is_some()`. Trusted:
/// the contract restates the documented cases in which `from_ymd_opt` gives
/// no date (a day that does not exist, an invalid month or day, a year out of
/// range).
#[verifier::external_body]
fn ymd_exists(year: i32, month: u32, day: u32) -> (b: bool)
    ensures
        b == valid_date(year as int, month as int, day as int),
{
    chrono::NaiveDate::from_ymd_opt(year, month, day).is_some()
}

/// `chrono::NaiveTime::from_hms_opt(hour, min, sec).is_some()`. Trusted: the
/// contract restates the documented ranges (hour below 24, minute and second
/// below 60).
#[verifier::external_body]
fn hms_exists(hour: u32, min: u32, sec: u32) -> (b: bool)
    ensures
        b == valid_time(hour as int, min as int, sec as int),
{
    chrono::NaiveTime::from_hms_opt(hour, min, sec).is_some()
}

pub open spec fn date_of(y: int, m: int, d: int) -> Option<Date> {
    if valid_date(y, m, d) {
        Some(Date { year: y as i32, month: m as u32, day: d as u32 })
    } else {
        None
    }
}

pub open spec fn time_of(h: int, m: int, s: int) -> Option<Time> {
    if valid_time(h, m, s) {
        Some(Time { hour: h as u32, minute: m as u32, second: s as u32 })
    } else {
        None
    }
}

/// The date `year-month-day`, when it exists.
pub fn date_from_ymd(year: i32, month: u32, day: u32) -> (r: Option<Date>)
    ensures
        r == date_of(year as int, month as int, day as int),
{
    if ymd_exists(year, month, day) {
        Some(Date { year, month, day })
    } else {
        None
    }
}

/// The time `hour:min:sec`, when it exists.
pub fn time_from_hms(hour: u32, min: u32, sec: u32) -> (r: Option<Time>)
    ensures
        r == time_of(hour as int, min as int, sec as int),
{
    if hms_exists(hour, min, sec) {
        Some(Time { hour, minute: min, second: sec })
    } else {
        None
    }
}

// ---------------------------------------------------------------------------
// File names
// ---------------------------------------------------------------------------

/// Whether a character is a Unicode decimal digit (`\p{Nd}`), the class the
/// `\d` of a regular expression matches.
pub uninterp spec fn unicode_nd(c: char) -> bool;

/// `\d` of the `regex` crate on one character. Trusted: the result is named
/// `unicode_nd`; the crate documents `\d` as `\p{Nd}`, which among ASCII
/// characters holds exactly the digits `0` to `9`.
#[verifier::external_body]
fn is_decimal_digit(c: char) -> (b: bool)
    ensures
        b == unicode_nd(c),
        ('0' <= c && c <= '9') ==> b,
        (c as u32) < 128 ==> (b <==> ('0' <= c && c <= '9')),
{
    let mut buf = [0u8; 4];
    match regex::Regex::new(r"^\d$") {
        Ok(re) => re.is_match(c.encode_utf8(&mut buf)),
        Err(_) => false,
    }
}

/// All characters of `s` are matched by `\d`.
pub open spec fn all_nd(s: Seq<char>) -> bool {
    forall|i: int| 0 <= i < s.len() ==> unicode_nd(#[trigger] s[i])
}

/// No line break: what `.+` needs of a capture.
pub open spec fn no_newline(s: Seq<char>) -> bool {
    forall|i: int| 0 <= i < s.len() ==> #[trigger] s[i] != '\n'
}

/// `^(\d{4})-(\d{2})-(\d{2})_(\d{2})-(\d{2})_(.+)$`.
pub open spec fn iso_datetime_match(n: Seq<char>) -> bool {
    &&& n.len() >= 18
    &&& all_nd(n.subrange(0, 4)) && n[4] == '-' && all_nd(n.subrange(5, 7)) && n[7] == '-'
    &&& all_nd(n.subrange(8, 10)) && n[10] == '_' && all_nd(n.subrange(11, 13)) && n[13] == '-'
    &&& all_nd(n.subrange(14, 16)) && n[16] == '_' && no_newline(n.skip(17))
}

/// `^(\d{4})-(\d{2})-(\d{2})_(.+)$`.
pub open spec fn iso_date_match(n: Seq<char>) -> bool {
    &&& n.len() >= 12
    &&& all_nd(n.subrange(0, 4)) && n[4] == '-' && all_nd(n.subrange(5, 7)) && n[7] == '-'
    &&& all_nd(n.subrange(8, 10)) && n[10] == '_' && no_newline(n.skip(11))
}

/// `^Meeting_(\d{4})(\d{2})(\d{2})$`.
pub open spec fn compact_date_match(n: Seq<char>) -> bool {
    n.len() == 16 && n.take(8) == "Meeting_"@ && all_nd(n.skip(8))
}

/// The ASCII digits of `s`, read as a number (`str::parse` on a `\d` capture
/// fails for other digits).
pub open spec fn ascii_number(s: Seq<char>) -> Option<nat> {
    if crate::text::all_digits(s) {
        Some(decimal_value(s))
    } else {
        None
    }
}

/// Underscores read as spaces.
pub open spec fn underscores_to_spaces(s: Seq<char>) -> Seq<char> {
    s.map_values(|c: char| if c == '_' { ' ' } else { c })
}

/// What a file name says: a date, a time and a title, each when present.
pub type FilenameFacts = (Option<Date>, Option<Time>, Option<Seq<char>>);

/// The reading of a file name's stem by the four supported patterns:
/// `YYYY-MM-DD_HH-MM_Topic`, `YYYY-MM-DD_Topic`, `Meeting_YYYYMMDD` and a
/// bare topic (underscores read as spaces). A pattern whose digits are not
/// ASCII gives nothing.
pub open spec fn filename_facts(filename: Seq<char>) -> Option<FilenameFacts> {
    match file_stem_spec(filename) {
        None => None,
        Some(n) => if iso_datetime_match(n) {
            match (
                ascii_number(n.subrange(0, 4)),
                ascii_number(n.subrange(5, 7)),
                ascii_number(n.subrange(8, 10)),
                ascii_number(n.subrange(11, 13)),
                ascii_number(n.subrange(14, 16)),
            ) {
                (Some(y), Some(mo), Some(d), Some(h), Some(mi)) => Some(
                    (
                        date_of(y as int, mo as int, d as int),
                        time_of(h as int, mi as int, 0),
                        Some(underscores_to_spaces(n.skip(17))),
                    ),
                ),
                _ => None,
            }
        } else if iso_date_match(n) {
            match (
                ascii_number(n.subrange(0, 4)),
                ascii_number(n.subrange(5, 7)),
                ascii_number(n.subrange(8, 10)),
            ) {
                (Some(y), Some(mo), Some(d)) => Some(
                    (
                        date_of(y as int, mo as int, d as int),
                        None,
                        Some(underscores_to_spaces(n.skip(11))),
                    ),
                ),
                _ => None,
            }
        } else if compact_date_match(n) {
            match (
                ascii_number(n.subrange(8, 12)),
                ascii_number(n.subrange(12, 14)),
                ascii_number(n.subrange(14, 16)),
            ) {
                (Some(y), Some(mo), Some(d)) => Some((date_of(y as int, mo as int, d as int), None, None)),
                _ => None,
            }
        } else if n.len() > 0 {
            Some((None, None, Some(underscores_to_spaces(n))))
        } else {
            None
        },
    }
}

/// Parsed file name metadata.
#[derive(Debug, Clone)]
pub struct ParsedFilename {
    pub date: Option<Date>,
    pub time: Option<Time>,
    pub title: Option<String>,
}

pub open spec fn parsed_view(p: ParsedFilename) -> FilenameFacts {
    (p.date, p.time, ov(p.title))
}

fn all_nd_exec(v: &[char], from: usize, to: usize) -> (b: bool)
    requires
        from <= to <= v@.len(),
    ensures
        b == all_nd(v@.subrange(from as int, to as int)),
{
    let mut i = from;
    while i < to
        invariant
            from <= i <= to,
            to <= v@.len(),
            forall|k: int| from <= k < i ==> unicode_nd(#[trigger] v@[k]),
        decreases to - i,
    {
        if !is_decimal_digit(v[i]) {
            assert(v@.subrange(from as int, to as int)[i - from] == v@[i as int]);
            return false;
        }
        i += 1;
    }
    assert forall|k: int| 0 <= k < v@.subrange(from as int, to as int).len() implies unicode_nd(
        #[trigger] v@.subrange(from as int, to as int)[k],
    ) by {
        assert(v@.subrange(from as int, to as int)[k] == v@[from + k]);
    }
    true
}

fn no_newline_exec(v: &[char], from: usize) -> (b: bool)
    requires
        from <= v@.len(),
    ensures
        b == no_newline(v@.skip(from as int)),
{
    let mut i = from;
    while i < v.len()
        invariant
            from <= i <= v@.len(),
            forall|k: int| from <= k < i ==> #[trigger] v@[k] != '\n',
        decreases v.len() - i,
    {
        if v[i] == '\n' {
            assert(v@.skip(from as int)[i - from] == v@[i as int]);
            return false;
        }
        i += 1;
    }
    assert forall|k: int| 0 <= k < v@.skip(from as int).len() implies #[trigger] v@.skip(
        from as int,
    )[k] != '\n' by {
        assert(v@.skip(from as int)[k] == v@[from + k]);
    }
    true
}

/// The ASCII number in `v[from..to]` (at most 4 digits).
fn ascii_number_exec(v: &[char], from: usize, to: usize) -> (r: Option<u32>)
    requires
        from <= to <= v@.len(),
        to - from <= 4,
    ensures
        r matches Some(x) ==> ascii_number(v@.subrange(from as int, to as int)) == Some(x as nat),
        r is None ==> ascii_number(v@.subrange(from as int, to as int)) is None,
        r matches Some(x) ==> x < 10000,
{
    let ghost s = v@.subrange(from as int, to as int);
    let mut acc: u32 = 0;
    let mut i = from;
    while i < to
        invariant
            from <= i <= to,
            to <= v@.len(),
            to - from <= 4,
            s == v@.subrange(from as int, to as int),
            crate::text::all_digits(s.take(i - from)),
            acc as nat == decimal_value(s.take(i - from)),
            acc < pow10((i - from) as nat),
            pow10((i - from) as nat) <= 10000,
        decreases to - i,
    {
        let c = v[i];
        assert(s[i - from] == c);
        if !('0' <= c && c <= '9') {
            assert(!is_digit(s[i - from]));
            return None;
        }
        assert(s.take(i - from + 1).drop_last() =~= s.take(i - from));
        proof {
            lemma_pow10_step((i - from) as nat);
        }
        acc = acc * 10 + (c as u32 - '0' as u32);
        i += 1;
        assert(crate::text::all_digits(s.take(i - from))) by {
            assert forall|k: int| 0 <= k < s.take(i - from).len() implies #[trigger] is_digit(
                s.take(i - from)[k],
            ) by {
                if k < i - from - 1 {
                    assert(s.take(i - from)[k] == s.take(i - from - 1)[k]);
                }
            }
        }
    }
    assert(s.take(to - from) =~= s);
    Some(acc)
}

pub open spec fn pow10(n: nat) -> nat
    decreases n,
{
    if n == 0 {
        1
    } else {
        10 * pow10((n - 1) as nat)
    }
}

proof fn lemma_pow10_step(n: nat)
    requires
        n < 4,
    ensures
        pow10(n + 1) == 10 * pow10(n),
        pow10(n + 1) <= 10000,
{
    assert(pow10(0) == 1);
    assert(pow10(1) == 10);
    assert(pow10(2) == 100);
    assert(pow10(3) == 1000);
    assert(pow10(4) == 10000);
}

fn underscores_to_spaces_exec(v: &[char], from: usize) -> (r: String)
    requires
        from <= v@.len(),
    ensures
        r@ == underscores_to_spaces(v@.skip(from as int)),
{
    let mut out: Vec<char> = Vec::new();
    let mut i = from;
    while i < v.len()
        invariant
            from <= i <= v@.len(),
            out@ == underscores_to_spaces(v@.subrange(from as int, i as int)),
        decreases v.len() - i,
    {
        let c = v[i];
        out.push(
            if c == '_' {
                ' '
            } else {
                c
            },
        );
        i += 1;
        assert(out@ =~= underscores_to_spaces(v@.subrange(from as int, i as int)));
    }
    assert(v@.subrange(from as int, v@.len() as int) =~= v@.skip(from as int));
    string_of(&out)
}

/// Reads meeting metadata from a recording's file name.
pub fn parse_filename(filename: &str) -> (r: Option<ParsedFilename>)
    ensures
        match filename_facts(filename@) {
            Some(f) => r matches Some(p) && parsed_view(p) == f,
            None => r is None,
        },
{
    let n = match file_stem(filename) {
        Some(n) => n,
        None => return None,
    };
    let len = n.len();
    // YYYY-MM-DD_HH-MM_Topic
    if len >= 18 && all_nd_exec(&n, 0, 4) && n[4] == '-' && all_nd_exec(&n, 5, 7) && n[7] == '-'
        && all_nd_exec(&n, 8, 10) && n[10] == '_' && all_nd_exec(&n, 11, 13) && n[13] == '-'
        && all_nd_exec(&n, 14, 16) && n[16] == '_' && no_newline_exec(&n, 17) {
        let y = match ascii_number_exec(&n, 0, 4) {
            Some(x) => x,
            None => return None,
        };
        let mo = match ascii_number_exec(&n, 5, 7) {
            Some(x) => x,
            None => return None,
        };
        let d = match ascii_number_exec(&n, 8, 10) {
            Some(x) => x,
            None => return None,
        };
        let h = match ascii_number_exec(&n, 11, 13) {
            Some(x) => x,
            None => return None,
        };
        let mi = match ascii_number_exec(&n, 14, 16) {
            Some(x) => x,
            None => return None,
        };
        return Some(
            ParsedFilename {
                date: date_from_ymd(y as i32, mo, d),
                time: time_from_hms(h, mi, 0),
                title: Some(underscores_to_spaces_exec(&n, 17)),
            },
        );
    }
    // YYYY-MM-DD_Topic
    if len >= 12 && all_nd_exec(&n, 0, 4) && n[4] == '-' && all_nd_exec(&n, 5, 7) && n[7] == '-'
        && all_nd_exec(&n, 8, 10) && n[10] == '_' && no_newline_exec(&n, 11) {
        let y = match ascii_number_exec(&n, 0, 4) {
            Some(x) => x,
            None => return None,
        };
        let mo = match ascii_number_exec(&n, 5, 7) {
            Some(x) => x,
            None => return None,
        };
        let d = match ascii_number_exec(&n, 8, 10) {
            Some(x) => x,
            None => return None,
        };
        return Some(
            ParsedFilename {
                date: date_from_ymd(y as i32, mo, d),
                time: None,
                title: Some(underscores_to_spaces_exec(&n, 11)),
            },
        );
    }
    // Meeting_YYYYMMDD
    if len == 16 && crate::text::starts_with_str(&n, "Meeting_") && all_nd_exec(&n, 8, 16) {
        proof {
            reveal_strlit("Meeting_");
        }
        assert(n@.subrange(8, 16) =~= n@.skip(8));
        let y = match ascii_number_exec(&n, 8, 12) {
            Some(x) => x,
            None => return None,
        };
        let mo = match ascii_number_exec(&n, 12, 14) {
            Some(x) => x,
            None => return None,
        };
        let d = match ascii_number_exec(&n, 14, 16) {
            Some(x) => x,
            None => return None,
        };
        return Some(ParsedFilename { date: date_from_ymd(y as i32, mo, d), time: None, title: None });
    }
    proof {
        reveal_strlit("Meeting_");
        if len == 16 && n@.take(8) == "Meeting_"@ {
            assert(n@.subrange(8, 16) =~= n@.skip(8));
        }
    }
    if len > 0 {
        assert(n@.skip(0) =~= n@);
        return Some(
            ParsedFilename { date: None, time: None, title: Some(underscores_to_spaces_exec(&n, 0)) },
        );
    }
    None
}

// ---------------------------------------------------------------------------
// Resolution across sources
// ---------------------------------------------------------------------------

/// User-provided metadata (highest precedence).
#[derive(Debug, Clone)]
pub struct UserMetadata {
    pub title: Option<String>,
    pub date: Option<DateTime>,
    pub participants: Option<Vec<String>>,
    pub location: Option<String>,
    pub organizer: Option<String>,
}

/// Calendar/bot metadata (second highest precedence).
#[derive(Debug, Clone)]
pub struct CalendarBotMetadata {
    pub title: Option<String>,
    pub date: Option<DateTime>,
    pub participants: Option<Vec<String>>,
    pub location: Option<String>,
    pub organizer: Option<String>,
}

/// All metadata sources for resolution.
#[derive(Debug, Clone)]
pub struct MetadataSources {
    pub user_provided: Option<UserMetadata>,
    pub calendar_bot: Option<CalendarBotMetadata>,
    pub filename: Option<ParsedFilename>,
    pub ffprobe: Option<FileMetadata>,
}

/// Resolved metadata with the source of each field.
#[derive(Debug, Clone)]
pub struct ResolvedMetadata {
    pub title: String,
    pub title_source: MetadataSource,
    pub date: Option<DateTime>,
    pub date_source: MetadataSource,
    pub participants: Option<Vec<String>>,
    pub participants_source: MetadataSource,
    pub location: Option<String>,
    pub location_source: MetadataSource,
    pub organizer: Option<String>,
    pub organizer_source: MetadataSource,
}

/// A text field by precedence: the user's, else the calendar's, else none.
pub open spec fn pick_text(user: Option<Option<String>>, cal: Option<Option<String>>) -> (
    Option<Seq<char>>,
    MetadataSource,
) {
    match (user, cal) {
        (Some(Some(u)), _) => (Some(u@), MetadataSource::UserProvided),
        (_, Some(Some(c))) => (Some(c@), MetadataSource::CalendarBot),
        _ => (None, MetadataSource::Default),
    }
}

/// The participants by precedence.
pub open spec fn pick_people(user: Option<Option<Vec<String>>>, cal: Option<Option<Vec<String>>>) -> (
    Option<Seq<Seq<char>>>,
    MetadataSource,
) {
    match (user, cal) {
        (Some(Some(u)), _) => (Some(sviews(u@)), MetadataSource::UserProvided),
        (_, Some(Some(c))) => (Some(sviews(c@)), MetadataSource::CalendarBot),
        _ => (None, MetadataSource::Default),
    }
}

/// The title: the user's, the calendar's, the file name's, or
/// `Untitled Meeting`.
pub open spec fn resolved_title(s: MetadataSources) -> (Seq<char>, MetadataSource) {
    if s.user_provided matches Some(u) && u.title is Some {
        (s.user_provided.unwrap().title.unwrap()@, MetadataSource::UserProvided)
    } else if s.calendar_bot matches Some(c) && c.title is Some {
        (s.calendar_bot.unwrap().title.unwrap()@, MetadataSource::CalendarBot)
    } else if s.filename matches Some(f) && f.title is Some {
        (s.filename.unwrap().title.unwrap()@, MetadataSource::Filename)
    } else {
        ("Untitled Meeting"@, MetadataSource::Default)
    }
}

/// The date: the user's, the calendar's, or the file name's date at its time
/// (midnight when it names none).
pub open spec fn resolved_date(s: MetadataSources) -> (Option<DateTime>, MetadataSource) {
    if s.user_provided matches Some(u) && u.date is Some {
        (s.user_provided.unwrap().date, MetadataSource::UserProvided)
    } else if s.calendar_bot matches Some(c) && c.date is Some {
        (s.calendar_bot.unwrap().date, MetadataSource::CalendarBot)
    } else if s.filename matches Some(f) && f.date is Some {
        let f = s.filename.unwrap();
        (
            Some(
                DateTime {
                    date: f.date.unwrap(),
                    time: match f.time {
                        Some(t) => t,
                        None => Time { hour: 0, minute: 0, second: 0 },
                    },
                },
            ),
            MetadataSource::Filename,
        )
    } else {
        (None, MetadataSource::Default)
    }
}

fn copy_people(o: &Option<Vec<String>>) -> (r: Option<Vec<String>>)
    ensures
        match *o {
            Some(v) => r matches Some(w) && sviews(w@) == sviews(v@),
            None => r is None,
        },
{
    match o {
        Some(v) => {
            let mut w: Vec<String> = Vec::new();
            let mut i: usize = 0;
            while i < v.len()
                invariant
                    i <= v@.len(),
                    sviews(w@) == sviews(v@).take(i as int),
                decreases v.len() - i,
            {
                let ghost w0 = sviews(w@);
                w.push(string_of(&chars_of(v[i].as_str())));
                i += 1;
                assert(sviews(w@) =~= w0.push(v@[i - 1]@));
                assert(sviews(v@).take(i as int) =~= sviews(v@).take(i - 1).push(v@[i - 1]@));
            }
            assert(sviews(v@).take(v@.len() as int) =~= sviews(v@));
            Some(w)
        },
        None => None,
    }
}

fn pick_text_exec(user: Option<&Option<String>>, cal: Option<&Option<String>>) -> (r: (
    Option<String>,
    MetadataSource,
))
    ensures
        (ov(r.0), r.1) == pick_text(
            match user {
                Some(u) => Some(*u),
                None => None,
            },
            match cal {
                Some(c) => Some(*c),
                None => None,
            },
        ),
{
    if let Some(Some(u)) = user {
        return (Some(string_of(&chars_of(u.as_str()))), MetadataSource::UserProvided);
    }
    if let Some(Some(c)) = cal {
        return (Some(string_of(&chars_of(c.as_str()))), MetadataSource::CalendarBot);
    }
    (None, MetadataSource::Default)
}

/// Resolves metadata from its sources by precedence: user-provided, then
/// calendar/bot, then file name, then defaults.
pub fn resolve_metadata(sources: MetadataSources) -> (r: ResolvedMetadata)
    ensures
        (r.title@, r.title_source) == resolved_title(sources),
        (r.date, r.date_source) == resolved_date(sources),
        ({
            let (p, src) = pick_people(
                match sources.user_provided {
                    Some(u) => Some(u.participants),
                    None => None,
                },
                match sources.calendar_bot {
                    Some(c) => Some(c.participants),
                    None => None,
                },
            );
            &&& r.participants_source == src
            &&& match r.participants {
                Some(v) => p == Some(sviews(v@)),
                None => p is None,
            }
        }),
        (ov(r.location), r.location_source) == pick_text(
            match sources.user_provided {
                Some(u) => Some(u.location),
                None => None,
            },
            match sources.calendar_bot {
                Some(c) => Some(c.location),
                None => None,
            },
        ),
        (ov(r.organizer), r.organizer_source) == pick_text(
            match sources.user_provided {
                Some(u) => Some(u.organizer),
                None => None,
            },
            match sources.calendar_bot {
                Some(c) => Some(c.organizer),
                None => None,
            },
        ),
{
    let u = &sources.user_provided;
    let c = &sources.calendar_bot;
    let f = &sources.filename;
    // title
    let (title, title_source) = if u.is_some() && u.as_ref().unwrap().title.is_some() {
        (
            string_of(&chars_of(u.as_ref().unwrap().title.as_ref().unwrap().as_str())),
            MetadataSource::UserProvided,
        )
    } else if c.is_some() && c.as_ref().unwrap().title.is_some() {
        (
            string_of(&chars_of(c.as_ref().unwrap().title.as_ref().unwrap().as_str())),
            MetadataSource::CalendarBot,
        )
    } else if f.is_some() && f.as_ref().unwrap().title.is_some() {
        (
            string_of(&chars_of(f.as_ref().unwrap().title.as_ref().unwrap().as_str())),
            MetadataSource::Filename,
        )
    } else {
        (string_of(&chars_of("Untitled Meeting")), MetadataSource::Default)
    };
    // date
    let (date, date_source) = if u.is_some() && u.as_ref().unwrap().date.is_some() {
        (u.as_ref().unwrap().date, MetadataSource::UserProvided)
    } else if c.is_some() && c.as_ref().unwrap().date.is_some() {
        (c.as_ref().unwrap().date, MetadataSource::CalendarBot)
    } else if f.is_some() && f.as_ref().unwrap().date.is_some() {
        let pf = f.as_ref().unwrap();
        let t = match pf.time {
            Some(t) => t,
            None => Time { hour: 0, minute: 0, second: 0 },
        };
        (Some(DateTime { date: pf.date.unwrap(), time: t }), MetadataSource::Filename)
    } else {
        (None, MetadataSource::Default)
    };
    // participants
    let (participants, participants_source) = if u.is_some()
        && u.as_ref().unwrap().participants.is_some() {
        (copy_people(&u.as_ref().unwrap().participants), MetadataSource::UserProvided)
    } else if c.is_some() && c.as_ref().unwrap().participants.is_some() {
        (copy_people(&c.as_ref().unwrap().participants), MetadataSource::CalendarBot)
    } else {
        (None, MetadataSource::Default)
    };
    let (location, location_source) = pick_text_exec(
        match u {
            Some(x) => Some(&x.location),
            None => None,
        },
        match c {
            Some(x) => Some(&x.location),
            None => None,
        },
    );
    let (organizer, organizer_source) = pick_text_exec(
        match u {
            Some(x) => Some(&x.organizer),
            None => None,
        },
        match c {
            Some(x) => Some(&x.organizer),
            None => None,
        },
    );
    ResolvedMetadata {
        title,
        title_source,
        date,
        date_source,
        participants,
        participants_source,
        location,
        location_source,
        organizer,
        organizer_source,
    }
}

/// A date read from the file name keeps the file name's time of day: when
/// neither the user nor the calendar gives a date and the file name gives a
/// date, the resolved date is that day at the time the file name gives, or
/// at midnight when it gives none.
pub proof fn law_filename_date_keeps_time(s: MetadataSources)
    requires
        !(s.user_provided matches Some(u) && u.date is Some),
        !(s.calendar_bot matches Some(c) && c.date is Some),
        s.filename matches Some(f) && f.date is Some,
    ensures
        ({
            let f = s.filename.unwrap();
            let d = f.date.unwrap();
            &&& resolved_date(s).1 == MetadataSource::Filename
            &&& resolved_date(s).0 matches Some(x) && x.date == d
            &&& f.time matches Some(t) ==> (resolved_date(s).0 matches Some(x) && x.time == t)
            &&& f.time is None ==> (resolved_date(s).0 matches Some(x) && x.time.hour == 0
                && x.time.minute == 0 && x.time.second == 0)
        }),
{
}

/// What the user gives wins over every other source, and the file name is
/// used for the title and date only when neither the user nor the calendar
/// gives one.
pub proof fn law_metadata_precedence(s: MetadataSources)
    ensures
        s.user_provided matches Some(u) ==> (u.title matches Some(t) ==> resolved_title(s) == (
            t@,
            MetadataSource::UserProvided,
        )),
        s.user_provided matches Some(u) ==> (u.date is Some ==> resolved_date(s) == (
            u.date,
            MetadataSource::UserProvided,
        )),
        resolved_title(s).1 == MetadataSource::Filename ==> !(s.user_provided matches Some(u)
            && u.title is Some) && !(s.calendar_bot matches Some(c) && c.title is Some),
        resolved_date(s).1 == MetadataSource::Filename ==> !(s.user_provided matches Some(u)
            && u.date is Some) && !(s.calendar_bot matches Some(c) && c.date is Some),
{
}

// ---------------------------------------------------------------------------
// A recording date given on the command line
// ---------------------------------------------------------------------------

/// The year, month, day, hour, minute and second that
/// `NaiveDateTime::parse_from_str(text, "%Y-%m-%d %H:%M:%S")` reads, if it
/// reads a date and time.
pub uninterp spec fn chrono_datetime_fields(text: Seq<char>) -> Option<(i32, u32, u32, u32, u32, u32)>;

/// The year, month and day that `NaiveDate::parse_from_str(text, "%Y-%m-%d")`
/// reads, if it reads a date.
pub uninterp spec fn chrono_date_fields(text: Seq<char>) -> Option<(i32, u32, u32)>;

/// `chrono::NaiveDateTime::parse_from_str` with the `%Y-%m-%d %H:%M:%S`
/// format, taken apart into its fields; the result is a function of the text.
#[verifier::external_body]
fn parse_datetime_fields(text: &str) -> (r: Option<(i32, u32, u32, u32, u32, u32)>)
    ensures
        r == chrono_datetime_fields(text@),
{
    chrono::NaiveDateTime::parse_from_str(text, "%Y-%m-%d %H:%M:%S").ok().map(
        |d| (d.year(), d.month(), d.day(), d.hour(), d.minute(), d.second()),
    )
}

/// `chrono::NaiveDate::parse_from_str` with the `%Y-%m-%d` format, taken
/// apart into its fields; the result is a function of the text.
#[verifier::external_body]
fn parse_date_fields(text: &str) -> (r: Option<(i32, u32, u32)>)
    ensures
        r == chrono_date_fields(text@),
{
    chrono::NaiveDate::parse_from_str(text, "%Y-%m-%d").ok().map(|d| (d.year(), d.month(), d.day()))
}

/// The recording date a text gives: a date and time
/// (`YYYY-MM-DD HH:MM:SS`), else a date at midnight (`YYYY-MM-DD`).
pub open spec fn recording_date_spec(text: Seq<char>) -> Option<DateTime> {
    match chrono_datetime_fields(text) {
        Some(f) => match (date_of(f.0 as int, f.1 as int, f.2 as int), time_of(f.3 as int, f.4 as int, f.5 as int)) {
            (Some(d), Some(t)) => Some(DateTime { date: d, time: t }),
            _ => None,
        },
        None => match chrono_date_fields(text) {
            Some(f) => match date_of(f.0 as int, f.1 as int, f.2 as int) {
                Some(d) => Some(DateTime { date: d, time: Time { hour: 0, minute: 0, second: 0 } }),
                None => None,
            },
            None => None,
        },
    }
}

/// Reads a recording date given as `YYYY-MM-DD HH:MM:SS` or `YYYY-MM-DD`.
pub fn recording_date(text: &str) -> (r: Option<DateTime>)
    ensures
        r == recording_date_spec(text@),
{
    match parse_datetime_fields(text) {
        Some((y, mo, d, h, mi, s)) => match (date_from_ymd(y, mo, d), time_from_hms(h, mi, s)) {
            (Some(date), Some(time)) => Some(DateTime { date, time }),
            _ => None,
        },
        None => match parse_date_fields(text) {
            Some((y, mo, d)) => match date_from_ymd(y, mo, d) {
                Some(date) => Some(DateTime { date, time: Time { hour: 0, minute: 0, second: 0 } }),
                None => None,
            },
            None => None,
        },
    }
}

/// The metadata given on the command line, when any was given.
pub fn user_metadata_from_flags(
    title: Option<String>,
    participants: Option<Vec<String>>,
    location: Option<String>,
    organizer: Option<String>,
    date: Option<DateTime>,
) -> (r: Option<UserMetadata>)
    ensures
        (title is None && participants is None && location is None && organizer is None
            && date is None) ==> r is None,
        !(title is None && participants is None && location is None && organizer is None
            && date is None) ==> (r matches Some(u) && u.title == title && u.participants
            == participants && u.location == location && u.organizer == organizer && u.date
            == date),
{
    if title.is_none() && participants.is_none() && location.is_none() && organizer.is_none()
        && date.is_none() {
        None
    } else {
        Some(UserMetadata { title, date, participants, location, organizer })
    }
}

} // verus!
