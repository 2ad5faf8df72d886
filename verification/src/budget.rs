//! The budget's table layout and its timestamps: a column is as wide as its
//! widest cell; a form's local time is read, and a stored time is placed
//! against a month's end or shown in local time. The money itself is summed
//! and formatted in floating point by the program around this library.

use vstd::prelude::*;
use vstd::string::*;

verus! {

/// The bytes `text` takes in UTF-8.
pub open spec fn byte_len(text: Seq<char>) -> nat {
    vstd::utf8::encode_utf8(text).len()
}

/// The most bytes any of `values` takes, or 0 when there are none.
pub open spec fn widest(values: Seq<Seq<char>>) -> nat
    decreases values.len(),
{
    if values.len() == 0 {
        0
    } else {
        let rest = widest(values.drop_last());
        let last = byte_len(values.last());
        if last > rest {
            last
        } else {
            rest
        }
    }
}

/// A column's width in bytes: its widest value, and never narrower than its
/// header.
pub open spec fn column_width_of(header: Seq<char>, values: Seq<Seq<char>>) -> nat {
    if widest(values) > byte_len(header) {
        widest(values)
    } else {
        byte_len(header)
    }
}

/// A column's width in bytes: its widest value, and never narrower than its
/// header.
pub fn col_width(header: &str, values: &Vec<String>) -> (width: usize)
    ensures
        width == column_width_of(header@, crate::text::texts_of(values@)),
{
    let ghost views = crate::text::texts_of(values@);
    let mut widest_so_far: usize = 0;
    let mut i: usize = 0;
    assert(views.take(0) =~= Seq::<Seq<char>>::empty());
    while i < values.len()
        invariant
            views == crate::text::texts_of(values@),
            i <= values@.len(),
            widest_so_far == widest(views.take(i as int)),
        decreases values.len() - i,
    {
        let len = values[i].as_str().as_bytes().len();
        assert(views.take(i + 1).drop_last() =~= views.take(i as int));
        assert(views.take(i + 1).last() == values@[i as int]@);
        if len > widest_so_far {
            widest_so_far = len;
        }
        i = i + 1;
    }
    assert(views.take(i as int) =~= views);
    let header_len = header.as_bytes().len();
    if widest_so_far > header_len {
        widest_so_far
    } else {
        header_len
    }
}

/// The date and time `text` spells in `format`, as `chrono`'s
/// `NaiveDateTime::parse_from_str` reads it: the day number of the date
/// (days since the start of 1 CE, counting it as day 1) and the second of
/// the day; `None` when it spells none.
pub uninterp spec fn parsed_datetime(text: Seq<char>, format: Seq<char>) -> Option<(int, int)>;

/// What `chrono`'s `DateTime::parse_from_rfc3339` reads in `text`: the day
/// number of the date as written (in the text's own offset) and the Unix
/// time of the instant; `None` when it is not an RFC 3339 timestamp.
pub uninterp spec fn rfc3339_of(text: Seq<char>) -> Option<(int, int)>;

/// Calls `chrono::NaiveDateTime::parse_from_str(text, format)`. The result
/// is named by [`parsed_datetime`]; a parsed date is one `chrono` can
/// represent, and a second of the day is below 86400.
#[verifier::external_body]
fn parse_datetime(text: &str, format: &str) -> (parsed: Option<(i32, u32)>)
    ensures
        parsed matches Some((day, second)) ==> parsed_datetime(text@, format@) == Some((day as int, second as int))
            && crate::in_canada::valid_day(day as int) && second < 86400,
        parsed is None ==> parsed_datetime(text@, format@) is None,
{
    chrono::NaiveDateTime::parse_from_str(text, format).ok().map(|at| {
        (chrono::Datelike::num_days_from_ce(&at.date()), chrono::Timelike::num_seconds_from_midnight(&at.time()))
    })
}

/// The earliest Unix time an RFC 3339 timestamp can name: 0000-01-01
/// 00:00:00 at the largest offset, 23:59 east.
pub const EARLIEST_RFC3339_UNIX: i64 = -62167305599;

/// The latest Unix time an RFC 3339 timestamp can name: 9999-12-31
/// 23:59:59 at the largest offset, 23:59 west.
pub const LATEST_RFC3339_UNIX: i64 = 253402387198;

/// Calls `chrono::DateTime::parse_from_rfc3339(text)`. The result is named
/// by [`rfc3339_of`]. As `chrono`'s source shows, a parsed date is one it can
/// represent, and since it reads a four-digit year and an offset under 24
/// hours, the Unix time lies between [`EARLIEST_RFC3339_UNIX`] and
/// [`LATEST_RFC3339_UNIX`].
#[verifier::external_body]
fn parse_rfc3339(text: &str) -> (parsed: Option<(i32, i64)>)
    ensures
        parsed matches Some((day, unix)) ==> rfc3339_of(text@) == Some((day as int, unix as int))
            && crate::in_canada::valid_day(day as int) && EARLIEST_RFC3339_UNIX <= unix
            <= LATEST_RFC3339_UNIX,
        parsed is None ==> rfc3339_of(text@) is None,
{
    chrono::DateTime::parse_from_rfc3339(text).ok().map(|at| (chrono::Datelike::num_days_from_ce(&at.date_naive()), at.timestamp()))
}

/// The day number of the Unix epoch, 1970-01-01.
pub const UNIX_EPOCH_DAY: i64 = 719163;

/// The Unix time of second `second` of the day numbered `day`, read as UTC.
pub open spec fn utc_seconds(day: int, second: int) -> int {
    (day - UNIX_EPOCH_DAY) * 86400 + second
}

/// Whether `stamp` is what a local time of second `second` of day `day`
/// may be written as in UTC: for a day whose UTC year has four digits, an
/// RFC 3339 timestamp less than a day from that time read as UTC.
pub open spec fn stamp_of_local(stamp: Seq<char>, day: int, second: int) -> bool {
    FIRST_FOUR_DIGIT_LOCAL_DAY <= day <= LAST_FOUR_DIGIT_LOCAL_DAY ==> match rfc3339_of(stamp) {
        Some((_, unix)) => utc_seconds(day, second) - 86400 < unix < utc_seconds(day, second) + 86400,
        None => false,
    }
}

/// The day number of 0000-01-02, the first day whose local times all fall
/// in a year `to_rfc3339` writes with four digits.
pub const FIRST_FOUR_DIGIT_LOCAL_DAY: i32 = -364;

/// The day number of 9999-12-30, the last day whose local times all fall in
/// a year `to_rfc3339` writes with four digits.
pub const LAST_FOUR_DIGIT_LOCAL_DAY: i32 = 3652058;

/// Calls `chrono::Local::from_local_datetime` on the date with day number
/// `day` at second `second` of that day, and renders the earliest instant it
/// names in UTC with `to_rfc3339`. `None` when the local time does not exist
/// in the machine's zone (or the day and second name no time). Which instant
/// it is rests on the zone, whose offset `chrono` keeps under a day; for a
/// day whose UTC year `to_rfc3339` writes with four digits, the text parses
/// back as RFC 3339 to that instant. Not stated: which offset the zone
/// gives, and that the zone lookup returns at all (`chrono` falls back to
/// UTC when the machine has no zone data, but panics on malformed data).
#[verifier::external_body]
fn local_stamp(day: i32, second: u32) -> (stamp: Option<String>)
    ensures
        stamp matches Some(s) ==> stamp_of_local(s@, day as int, second as int),
{
    let date = chrono::NaiveDate::from_num_days_from_ce_opt(day)?;
    let time = chrono::NaiveTime::from_num_seconds_from_midnight_opt(second, 0)?;
    let local = chrono::TimeZone::from_local_datetime(&chrono::Local, &date.and_time(time)).earliest()?;
    Some(local.with_timezone(&chrono::Utc).to_rfc3339())
}

/// Whether `text` reads as a year the way `chrono`'s `%Y` writes one: four
/// or more digits, or a sign and four or more digits.
pub open spec fn is_year_text(text: Seq<char>) -> bool {
    ||| text.len() >= 4 && all_digits(text)
    ||| text.len() >= 5 && (text[0] == '+' || text[0] == '-') && all_digits(text.drop_first())
}

/// Whether `c` is an ASCII digit.
pub open spec fn is_digit(c: char) -> bool {
    '0' <= c <= '9'
}

/// Whether `text` has the shape of a `%Y-%m-%d %H:%M` stamp: a year, then
/// `-MM-DD HH:MM` with two digits in each field.
pub open spec fn is_minute_stamp(text: Seq<char>) -> bool {
    let n = text.len() as int;
    &&& n >= 16
    &&& is_year_text(text.take(n - 12))
    &&& text[n - 12] == '-' && is_digit(text[n - 11]) && is_digit(text[n - 10])
    &&& text[n - 9] == '-' && is_digit(text[n - 8]) && is_digit(text[n - 7])
    &&& text[n - 6] == ' ' && is_digit(text[n - 5]) && is_digit(text[n - 4])
    &&& text[n - 3] == ':' && is_digit(text[n - 2]) && is_digit(text[n - 1])
}

/// The day number of the UTC date of Unix time `unix`.
pub open spec fn unix_day(unix: int) -> int {
    unix / 86400 + UNIX_EPOCH_DAY
}

/// Whether `stamp`, read back as `%Y-%m-%d %H:%M`, names the minute that the
/// instant `unix` falls in under some offset of less than a day: the minute
/// read as UTC starts less than a day after `unix` and ends more than a day
/// before it.
pub open spec fn shows_instant(stamp: Seq<char>, unix: int) -> bool {
    match parsed_datetime(stamp, "%Y-%m-%d %H:%M"@) {
        Some((day, second)) => unix - 86400 < utc_seconds(day, second) + 60 && utc_seconds(day, second)
            < unix + 86400,
        None => false,
    }
}

/// Calls `chrono::DateTime::from_timestamp` on Unix time `unix` and renders
/// it in the machine's time zone with `%Y-%m-%d %H:%M`. As `chrono`'s source
/// shows: there is a result whenever the UTC date is one it can represent;
/// every result has the shape of such a stamp (a four-digit year, or a
/// signed one outside 0 to 9999); and the local time is the instant moved by
/// the zone's offset, which `FixedOffset` keeps under a day, cut to the
/// minute, so for an instant an RFC 3339 timestamp can name the stamp reads
/// back with `%Y-%m-%d %H:%M` as that minute. Not stated: which offset the
/// zone gives, and that the zone lookup returns at all (`chrono` falls back
/// to UTC when the machine has no zone data, but panics on malformed data).
#[verifier::external_body]
fn local_minute(unix: i64) -> (text: Option<String>)
    ensures
        crate::in_canada::valid_day(unix_day(unix as int)) ==> text is Some,
        text matches Some(t) ==> is_minute_stamp(t@),
        EARLIEST_RFC3339_UNIX <= unix <= LATEST_RFC3339_UNIX ==> (text matches Some(t) ==> shows_instant(
            t@,
            unix as int,
        )),
{
    chrono::DateTime::from_timestamp(unix, 0)
        .map(|at| at.with_timezone(&chrono::Local).format("%Y-%m-%d %H:%M").to_string())
}

/// `text` with every `T` made a space, so `YYYY-MM-DDTHH:MM` reads as
/// `YYYY-MM-DD HH:MM`.
pub open spec fn spaced(text: Seq<char>) -> Seq<char> {
    text.map_values(|c: char| if c == 'T' { ' ' } else { c })
}

/// The date and time a form's local timestamp names: `YYYY-MM-DD HH:MM:SS`,
/// else `YYYY-MM-DD HH:MM`, else a bare `YYYY-MM-DD` meaning midnight; as
/// the day number and the second of the day.
pub open spec fn naive_local_of(text: Seq<char>) -> Option<(int, int)> {
    match parsed_datetime(text, "%Y-%m-%d %H:%M:%S"@) {
        Some(at) => Some(at),
        None => match parsed_datetime(text, "%Y-%m-%d %H:%M"@) {
            Some(at) => Some(at),
            None => match crate::in_canada::parsed_ymd(text) {
                Some(day) => Some((day, 0)),
                None => None,
            },
        },
    }
}

/// `text` with every `T` made a space.
fn spaced_text(text: &str) -> (out: String)
    ensures
        out@ == spaced(text@),
{
    let n = text.unicode_len();
    let mut out = String::new();
    let mut i: usize = 0;
    while i < n
        invariant
            n == text@.len(),
            i <= n,
            out@ == spaced(text@.take(i as int)),
        decreases n - i,
    {
        let c = text.get_char(i);
        crate::text::push_char(&mut out, if c == 'T' { ' ' } else { c });
        assert(spaced(text@.take(i + 1)) =~= spaced(text@.take(i as int)).push(if c == 'T' { ' ' } else { c }));
        i = i + 1;
    }
    assert(text@.take(n as int) =~= text@);
    out
}

/// The date and time a form's local timestamp names, read as
/// [`naive_local_of`] reads it.
pub fn naive_local(text: &str) -> (at: Option<(i32, u32)>)
    ensures
        match at {
            Some((day, second)) => naive_local_of(text@) == Some((day as int, second as int)),
            None => naive_local_of(text@) is None,
        },
{
    match parse_datetime(text, "%Y-%m-%d %H:%M:%S") {
        Some(at) => return Some(at),
        None => {},
    }
    match parse_datetime(text, "%Y-%m-%d %H:%M") {
        Some(at) => return Some(at),
        None => {},
    }
    match crate::in_canada::parse_ymd(text) {
        Some(day) => Some((day, 0)),
        None => None,
    }
}

/// A form's local timestamp (`YYYY-MM-DD HH:MM`, a `T` separator or seconds
/// also accepted, or a bare date meaning midnight; white space around it
/// ignored) as a UTC RFC 3339 string. `None` when it names no date and
/// time; where it does, the machine's time zone turns it into an instant,
/// and a local time that does not exist there gives `None` too. A stamp
/// names an instant less than a day from the local time read as UTC.
pub fn parse_local_datetime(raw: &str) -> (stamp: Option<String>)
    ensures
        naive_local_of(spaced(crate::text::trimmed(raw@))) is None ==> stamp is None,
        stamp matches Some(s) ==> match naive_local_of(spaced(crate::text::trimmed(raw@))) {
            Some((day, second)) => stamp_of_local(s@, day, second),
            None => false,
        },
{
    let text = spaced_text(crate::text::trim(raw).as_str());
    match naive_local(text.as_str()) {
        Some((day, second)) => local_stamp(day, second),
        None => None,
    }
}

/// A stored timestamp in local time as `YYYY-MM-DD HH:MM`: every RFC 3339
/// timestamp gives the minute its instant falls in, in the machine's zone;
/// any other text comes back as it is.
pub fn iso_to_local_input(iso: &str) -> (text: String)
    ensures
        rfc3339_of(iso@) is None ==> text@ == iso@,
        rfc3339_of(iso@) is Some ==> is_minute_stamp(text@),
        rfc3339_of(iso@) matches Some((_, unix)) ==> shows_instant(text@, unix),
{
    match parse_rfc3339(iso) {
        Some((_, unix)) => {
            assert(unix_day(unix as int) >= -366 && unix_day(unix as int) <= 3652060) by (nonlinear_arith)
                requires
                    EARLIEST_RFC3339_UNIX <= unix <= LATEST_RFC3339_UNIX,
            ;
            match local_minute(unix) {
                Some(text) => text,
                None => String::from_str(iso),
            }
        },
        None => String::from_str(iso),
    }
}

/// The characters of `text` that take its first `n` bytes in UTF-8; `None`
/// when it is shorter, or byte `n` falls inside a character.
pub open spec fn byte_prefix(text: Seq<char>, n: int) -> Option<Seq<char>>
    decreases text.len(),
{
    if n == 0 {
        Some(Seq::empty())
    } else if n < 0 || text.len() == 0 {
        None
    } else {
        match byte_prefix(text.drop_first(), n - crate::text::utf8_width(text[0])) {
            Some(rest) => Some(seq![text[0]] + rest),
            None => None,
        }
    }
}

/// The characters of `text` in its first `n` bytes, as `str::get(..n)`
/// gives them.
fn first_bytes(text: &str, n: usize) -> (prefix: Option<String>)
    ensures
        match prefix {
            Some(p) => byte_prefix(text@, n as int) == Some(p@),
            None => byte_prefix(text@, n as int) is None,
        },
{
    let len = text.unicode_len();
    let mut i: usize = 0;
    let mut left: usize = n;
    assert(text@.skip(0) =~= text@);
    assert(text@.take(0) =~= Seq::<char>::empty());
    while i < len && left > 0
        invariant
            len == text@.len(),
            i <= len,
            left <= n,
            byte_prefix(text@, n as int) == match byte_prefix(text@.skip(i as int), left as int) {
                Some(rest) => Some(text@.take(i as int) + rest),
                None => None,
            },
        decreases len - i,
    {
        let c = text.get_char(i);
        let w = crate::text::char_len_utf8(c);
        assert(text@.skip(i as int).drop_first() =~= text@.skip(i + 1));
        assert(text@.skip(i as int)[0] == c);
        if w > left {
            assert(byte_prefix(text@.skip(i + 1), left - w) is None) by {
                assert(left - w < 0);
            }
            return None;
        }
        proof {
            let rest = byte_prefix(text@.skip(i + 1), left - w);
            if let Some(r) = rest {
                assert(text@.take(i as int) + (seq![c] + r) =~= text@.take(i + 1) + r);
            }
        }
        left = left - w;
        i = i + 1;
    }
    if left > 0 {
        assert(text@.skip(i as int).len() == 0);
        return None;
    }
    assert(byte_prefix(text@.skip(i as int), 0) == Some(Seq::<char>::empty()));
    assert(text@.take(i as int) + Seq::<char>::empty() =~= text@.take(i as int));
    Some(String::from_str(text.substring_char(0, i)))
}

/// The day a stored timestamp was recorded on: the date an RFC 3339
/// timestamp is written with, else the date its first ten bytes spell as
/// `YYYY-MM-DD` (read from nothing when it has no such ten bytes).
pub open spec fn recorded_day(recorded_at: Seq<char>) -> Option<int> {
    match rfc3339_of(recorded_at) {
        Some((day, _)) => Some(day),
        None => match byte_prefix(recorded_at, 10) {
            Some(head) => crate::in_canada::parsed_ymd(head),
            None => crate::in_canada::parsed_ymd(Seq::empty()),
        },
    }
}

/// Whether a stored timestamp was recorded on or before the day numbered
/// `month_end`; a timestamp with no readable date was not.
pub fn recorded_before(recorded_at: &str, month_end: i32) -> (before: bool)
    ensures
        before == match recorded_day(recorded_at@) {
            Some(day) => day <= month_end,
            None => false,
        },
{
    match parse_rfc3339(recorded_at) {
        Some((day, _)) => day <= month_end,
        None => {
            let head = match first_bytes(recorded_at, 10) {
                Some(head) => head,
                None => String::new(),
            };
            match crate::in_canada::parse_ymd(head.as_str()) {
                Some(day) => day <= month_end,
                None => false,
            }
        },
    }
}

/// The characters of `text` in its bytes `from` to `to`, as
/// `str::get(from..to)` gives them: `None` unless both ends fall on character
/// boundaries within the text.
pub open spec fn byte_slice(text: Seq<char>, from: int, to: int) -> Option<Seq<char>> {
    match byte_prefix(text, to) {
        Some(head) => match byte_prefix(head, from) {
            Some(front) => Some(head.skip(front.len() as int)),
            None => None,
        },
        None => None,
    }
}

/// A prefix cut at a byte count is a prefix with no more characters than the
/// count allows.
proof fn lemma_byte_prefix_len(text: Seq<char>, n: int)
    requires
        byte_prefix(text, n) is Some,
    ensures
        byte_prefix(text, n).unwrap().len() <= text.len(),
        byte_prefix(text, n).unwrap().len() <= n,
    decreases text.len(),
{
    if n != 0 && !(n < 0 || text.len() == 0) {
        lemma_byte_prefix_len(text.drop_first(), n - crate::text::utf8_width(text[0]));
    }
}

/// The value of a run of ASCII decimal digits.
pub open spec fn decimal_value(digits: Seq<char>) -> int
    decreases digits.len(),
{
    if digits.len() == 0 {
        0
    } else {
        decimal_value(digits.drop_last()) * 10 + (digits.last() as int - '0' as int)
    }
}

/// Whether every character of `text` is an ASCII digit.
pub open spec fn all_digits(text: Seq<char>) -> bool {
    forall|i: int| 0 <= i < text.len() ==> '0' <= #[trigger] text[i] <= '9'
}

/// The integer `text` spells as `str::parse` reads one: an optional `+`, or
/// `-` where `signed`, then one or more ASCII digits.
pub open spec fn parsed_integer(text: Seq<char>, signed: bool) -> Option<int> {
    let negative = signed && text.len() > 0 && text[0] == '-';
    let digits = if negative || (text.len() > 0 && text[0] == '+') {
        text.drop_first()
    } else {
        text
    };
    if digits.len() == 0 || !all_digits(digits) {
        None
    } else if negative {
        Some(-decimal_value(digits))
    } else {
        Some(decimal_value(digits))
    }
}

/// Ten to the power `n`, for the lengths a short number can have.
spec fn ten_to(n: int) -> int {
    if n <= 0 {
        1
    } else if n == 1 {
        10
    } else if n == 2 {
        100
    } else if n == 3 {
        1000
    } else if n == 4 {
        10000
    } else if n == 5 {
        100000
    } else if n == 6 {
        1000000
    } else if n == 7 {
        10000000
    } else {
        100000000
    }
}

/// `text` read as an integer, for texts of at most eight characters, whose
/// values always fit.
fn parse_short_integer(text: &str, signed: bool) -> (value: Option<i32>)
    requires
        text@.len() <= 8,
    ensures
        match value {
            Some(v) => parsed_integer(text@, signed) == Some(v as int),
            None => parsed_integer(text@, signed) is None,
        },
        value matches Some(v) ==> -100000000 < v < 100000000 && (!signed ==> v >= 0),
{
    let len = text.unicode_len();
    let mut start: usize = 0;
    let mut negative = false;
    if len > 0 {
        let first = text.get_char(0);
        if signed && first == '-' {
            negative = true;
            start = 1;
        } else if first == '+' {
            start = 1;
        }
    }
    let ghost digits = text@.skip(start as int);
    assert(digits =~= if negative || (text@.len() > 0 && text@[0] == '+') {
        text@.drop_first()
    } else {
        text@
    });
    assert(parsed_integer(text@, signed) == (if digits.len() == 0 || !all_digits(digits) {
        None
    } else if negative {
        Some(-decimal_value(digits))
    } else {
        Some(decimal_value(digits))
    }));
    if start == len {
        return None;
    }
    let mut acc: i64 = 0;
    let mut i: usize = start;
    while i < len
        invariant
            start <= i <= len,
            len == text@.len(),
            len <= 8,
            digits == text@.skip(start as int),
            all_digits(digits.take(i - start)),
            acc == decimal_value(digits.take(i - start)),
            0 <= acc < ten_to(i - start),
            parsed_integer(text@, signed) == (if digits.len() == 0 || !all_digits(digits) {
                None
            } else if negative {
                Some(-decimal_value(digits))
            } else {
                Some(decimal_value(digits))
            }),
            digits.len() > 0,
        decreases len - i,
    {
        let c = text.get_char(i);
        if c < '0' || c > '9' {
            assert(digits[i - start] == c);
            assert(!('0' <= digits[i - start] <= '9'));
            assert(!all_digits(digits));
            return None;
        }
        assert(digits.take(i + 1 - start).drop_last() =~= digits.take(i - start));
        assert(digits.take(i + 1 - start).last() == c);
        let d: i64 = (c as u32 - '0' as u32) as i64;
        acc = acc * 10 + d;
        i = i + 1;
    }
    assert(digits.take(len - start) =~= digits);
    if negative {
        Some((-acc) as i32)
    } else {
        Some(acc as i32)
    }
}

/// The year a `YYYY-MM` month key names: its first four bytes read as an
/// integer, else 2000.
pub open spec fn key_year(key: Seq<char>) -> int {
    match byte_prefix(key, 4) {
        Some(head) => match parsed_integer(head, true) {
            Some(year) => year,
            None => 2000,
        },
        None => 2000,
    }
}

/// The month a `YYYY-MM` month key names: its bytes five and six read as an
/// unsigned integer, else 1.
pub open spec fn key_month(key: Seq<char>) -> int {
    match byte_slice(key, 5, 7) {
        Some(part) => match parsed_integer(part, false) {
            Some(month) => month,
            None => 1,
        },
        None => 1,
    }
}

/// The year and month a `YYYY-MM` month key names, falling back to year 2000
/// and January for parts that do not read as numbers.
pub fn month_key_parts(key: &str) -> (parts: (i32, u32))
    ensures
        parts.0 == key_year(key@),
        parts.1 == key_month(key@),
        -100000000 < parts.0 < 100000000,
        parts.1 < 100000000,
{
    let year: i32 = match first_bytes(key, 4) {
        Some(head) => {
            proof {
                lemma_byte_prefix_len(key@, 4);
            }
            match parse_short_integer(head.as_str(), true) {
                Some(y) => y,
                None => 2000,
            }
        },
        None => 2000,
    };
    let month: u32 = match first_bytes(key, 7) {
        Some(head) => {
            proof {
                lemma_byte_prefix_len(key@, 7);
            }
            match first_bytes(head.as_str(), 5) {
                Some(front) => {
                    proof {
                        lemma_byte_prefix_len(head@, 5);
                    }
                    let n = head.as_str().unicode_len();
                    let m = front.as_str().unicode_len();
                    let part = head.as_str().substring_char(m, n);
                    assert(part@ =~= head@.skip(front@.len() as int));
                    match parse_short_integer(part, false) {
                        Some(v) => v as u32,
                        None => 1,
                    }
                },
                None => 1,
            }
        },
        None => 1,
    };
    (year, month)
}

/// The day before `first_next`, the first day of the next month; `fallback`
/// when there is no such day.
pub open spec fn day_before_or(first_next: Option<int>, fallback: int) -> int {
    match first_next {
        Some(d) => if d > crate::in_canada::EARLIEST_DAY {
            d - 1
        } else {
            fallback
        },
        None => fallback,
    }
}

/// The day before `first_next`, as `NaiveDate::pred_opt` steps back; `fallback`
/// when `first_next` is `None` or the earliest date.
pub fn last_day_before(first_next: Option<i32>, fallback: i32) -> (day: i32)
    ensures
        day == day_before_or(
            match first_next {
                Some(d) => Some(d as int),
                None => None,
            },
            fallback as int,
        ),
{
    match first_next {
        Some(d) => if d > crate::in_canada::EARLIEST_DAY {
            d - 1
        } else {
            fallback
        },
        None => fallback,
    }
}

/// The first day of the month after the one `key` names.
pub open spec fn first_of_next_month(key: Seq<char>) -> Option<int> {
    if key_month(key) == 12 {
        crate::in_canada::ymd_day(key_year(key) + 1, 1, 1)
    } else {
        crate::in_canada::ymd_day(key_year(key), key_month(key) + 1, 1)
    }
}

/// The last day of the month a `YYYY-MM` key names, or `today` when the key
/// names no month that has one.
pub fn month_end(key: &str, today: i32) -> (end: i32)
    ensures
        end == day_before_or(first_of_next_month(key@), today as int),
{
    let (year, month) = month_key_parts(key);
    let first_next = if month == 12 {
        crate::in_canada::from_ymd(year + 1, 1, 1)
    } else {
        crate::in_canada::from_ymd(year, month + 1, 1)
    };
    last_day_before(first_next, today)
}

/// The `YYYY-MM` keys of the months `count - 1`, ..., `count - k` months
/// before the day `first`, oldest first, skipping months `chrono` cannot
/// reach and a key equal to the one before it.
pub open spec fn month_keys_back(first: int, count: int, k: int) -> Seq<Seq<char>>
    decreases k,
{
    if k <= 0 {
        Seq::empty()
    } else {
        let before = month_keys_back(first, count, k - 1);
        match crate::in_canada::day_months_before(first, count - k) {
            Some(d) => {
                let key = crate::in_canada::formatted_day(d, "%Y-%m"@);
                if before.len() > 0 && before.last() == key {
                    before
                } else {
                    before.push(key)
                }
            },
            None => before,
        }
    }
}

/// How many months a trailing range of `months` months covers: at least one.
pub open spec fn months_covered(months: u32) -> int {
    if months == 0 {
        1
    } else {
        months as int
    }
}

/// The month keys (`YYYY-MM`) of the trailing `months` months that end with
/// the month of the day `first`, oldest first, with no key twice in a row.
pub fn month_keys_from(first: i32, months: u32) -> (keys: Vec<String>)
    ensures
        keys.deep_view() == month_keys_back(first as int, months_covered(months), months_covered(
            months,
        )),
{
    let count: u32 = if months == 0 {
        1
    } else {
        months
    };
    let mut keys: Vec<String> = Vec::new();
    let mut k: u32 = 0;
    assert(keys.deep_view() =~= Seq::<Seq<char>>::empty());
    while k < count
        invariant
            k <= count,
            count == months_covered(months),
            keys.deep_view() == month_keys_back(first as int, count as int, k as int),
        decreases count - k,
    {
        let back: u32 = count - 1 - k;
        assert(back == count - (k + 1));
        match crate::in_canada::months_before(first, back) {
            Some(d) => {
                let key = crate::in_canada::format_day(d, "%Y-%m");
                let n = keys.len();
                let repeated = n > 0 && crate::text::same_text(keys[n - 1].as_str(), key.as_str());
                if !repeated {
                    let ghost old_keys = keys.deep_view();
                    keys.push(key);
                    assert(keys.deep_view() =~= old_keys.push(
                        crate::in_canada::formatted_day(d as int, "%Y-%m"@),
                    ));
                } else {
                    assert(keys.deep_view().last() == keys[n - 1]@);
                }
            },
            None => {},
        }
        k = k + 1;
    }
    keys
}

/// The month keys (`YYYY-MM`) of the trailing `months` months ending with the
/// month of `today`, oldest first, with no key twice in a row.
pub fn trailing_months(months: u32, today: i32) -> (keys: Vec<String>)
    requires
        crate::in_canada::valid_day(today as int),
    ensures
        crate::in_canada::day_with_mday(today as int, 1) matches Some(first) && keys.deep_view()
            == month_keys_back(first, months_covered(months), months_covered(months)),
{
    match crate::in_canada::with_month_day(today, 1) {
        Some(first) => month_keys_from(first, months),
        None => Vec::new(),
    }
}

/// The first day a summary over `months` months counts: the first of the
/// month `months - 1` months before `today`'s, falling back to `today` where
/// `chrono` finds no such day.
pub open spec fn summary_start(months: u32, today: int) -> int {
    let first = match crate::in_canada::day_with_mday(today, 1) {
        Some(d) => d,
        None => today,
    };
    let back = if months == 0 {
        0
    } else {
        months - 1
    };
    match crate::in_canada::day_months_before(first, back) {
        Some(d) => d,
        None => today,
    }
}

/// The first day a summary over `months` months counts, written
/// `YYYY-MM-DD`.
pub fn summary_since(months: u32, today: i32) -> (since: String)
    requires
        crate::in_canada::valid_day(today as int),
    ensures
        since@ == crate::in_canada::formatted_day(summary_start(months, today as int), "%Y-%m-%d"@),
{
    let first = match crate::in_canada::with_month_day(today, 1) {
        Some(d) => d,
        None => today,
    };
    let back: u32 = if months == 0 {
        0
    } else {
        months - 1
    };
    let start = match crate::in_canada::months_before(first, back) {
        Some(d) => d,
        None => today,
    };
    crate::in_canada::format_day(start, "%Y-%m-%d")
}

/// Whether `date` falls in one of the months `month_keys` names: whether it
/// starts with one of the keys.
pub fn in_months(date: &str, month_keys: &Vec<String>) -> (inside: bool)
    ensures
        inside == exists|i: int|
            0 <= i < month_keys@.len() && crate::text::has_prefix(date@, #[trigger] month_keys@[i]@),
{
    let mut i: usize = 0;
    while i < month_keys.len()
        invariant
            i <= month_keys@.len(),
            forall|j: int| 0 <= j < i ==> !crate::text::has_prefix(date@, #[trigger] month_keys@[j]@),
        decreases month_keys.len() - i,
    {
        if crate::text::starts_with(date, month_keys[i].as_str()) {
            return true;
        }
        i = i + 1;
    }
    false
}

/// The month key (`YYYY-MM`) a stored date is bucketed under: its first
/// seven bytes, or `None` when it is shorter or byte seven falls inside a
/// character.
pub fn month_of_date(date: &str) -> (month: Option<String>)
    ensures
        match month {
            Some(m) => byte_prefix(date@, 7) == Some(m@),
            None => byte_prefix(date@, 7) is None,
        },
{
    first_bytes(date, 7)
}

} // verus!
