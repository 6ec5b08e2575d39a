//! Calls into other crates and into parts of the standard library that the
//! verifier knows nothing about. Every contract in this file is believed, not
//! proved. Where a result is a function of the arguments alone but too long to
//! write down, the contract gives it a name and says nothing more of it.

use std::fmt::Write;
use vstd::prelude::*;
use vstd::string::StringSliceAdditionalSpecFns;

verus! {

/// Appends one character to `s` (`String::push`).
#[verifier::external_body]
pub(crate) fn push_char(s: &mut String, c: char)
    ensures
        final(s)@ == old(s)@.push(c),
{
    s.push(c);
}

/// What `str::to_uppercase` returns for the text.
pub uninterp spec fn uppercased(s: Seq<char>) -> Seq<char>;

/// The uppercase form of `s` (`str::to_uppercase`).
#[verifier::external_body]
pub(crate) fn to_uppercase(s: &str) -> (r: String)
    ensures
        r@ == uppercased(s@),
{
    s.to_uppercase()
}

/// What `str::to_lowercase` returns for the text.
pub uninterp spec fn lowercased(s: Seq<char>) -> Seq<char>;

/// The lowercase form of `s` (`str::to_lowercase`).
#[verifier::external_body]
pub(crate) fn to_lowercase(s: &str) -> (r: String)
    ensures
        r@ == lowercased(s@),
{
    s.to_lowercase()
}

/// What `char::to_uppercase` yields for the character, as one text.
pub uninterp spec fn char_uppercased(c: char) -> Seq<char>;

/// The uppercase form of `c`, which may be several characters
/// (`char::to_uppercase`, collected).
#[verifier::external_body]
pub(crate) fn char_to_uppercase(c: char) -> (r: String)
    ensures
        r@ == char_uppercased(c),
{
    c.to_uppercase().collect()
}

/// What `slug::slugify` returns for the text.
pub uninterp spec fn slug_of(s: Seq<char>) -> Seq<char>;

/// The slug of `s` (`slug::slugify`).
#[verifier::external_body]
pub(crate) fn slugify(s: &str) -> (r: String)
    ensures
        r@ == slug_of(s@),
{
    slug::slugify(s)
}

/// What `humansize::FileSize::file_size` returns for a number of bytes that
/// is not negative, with the options `CONVENTIONAL`.
pub uninterp spec fn conventional_size(bytes: i64) -> Seq<char>;

/// The size of `bytes` bytes in words (`FileSize::file_size` of `humansize`
/// on an `i64`, with the options `CONVENTIONAL`): nothing for a negative
/// number, which those options refuse.
#[verifier::external_body]
pub(crate) fn file_size(bytes: i64) -> (r: Option<String>)
    ensures
        match r {
            Some(text) => bytes >= 0 && text@ == conventional_size(bytes),
            None => bytes < 0,
        },
{
    humansize::FileSize::file_size(&bytes, humansize::file_size_opts::CONVENTIONAL).ok()
}

/// The byte offsets at which `unic_segment::GraphemeIndices` finds the
/// extended grapheme clusters of the text to start, in order.
pub uninterp spec fn grapheme_offsets(s: Seq<char>) -> Seq<int>;

/// The byte offset of the start of each extended grapheme cluster of `s`
/// (`unic_segment::GraphemeIndices::new`, iterated to its end). Every
/// cluster is a slice of `s`, so every offset is a character boundary of `s`.
#[verifier::external_body]
pub(crate) fn grapheme_starts(s: &str) -> (offsets: Vec<usize>)
    ensures
        offsets@.len() == grapheme_offsets(s@).len(),
        forall|i: int|
            0 <= i < offsets@.len() ==> (#[trigger] offsets@[i]) as int == grapheme_offsets(s@)[i]
                && vstd::utf8::is_char_boundary(s.spec_bytes(), offsets@[i] as int),
{
    unic_segment::GraphemeIndices::new(s).map(|(offset, _)| offset).collect()
}

/// What matching a text against a regular expression gives: whether the
/// expression matches somewhere in the text, or the compiler's message if the
/// expression cannot be compiled (`regex::Regex::new`, then
/// `regex::Regex::is_match`).
pub uninterp spec fn regex_match(pattern: Seq<char>, text: Seq<char>) -> Result<bool, Seq<char>>;

/// Compiles `pattern` (`regex::Regex::new`) and says whether it matches
/// somewhere in `text` (`regex::Regex::is_match`); if it does not compile,
/// the error as text.
#[verifier::external_body]
pub(crate) fn regex_is_match(pattern: &str, text: &str) -> (r: Result<bool, String>)
    ensures
        match r {
            Ok(found) => regex_match(pattern@, text@) == Ok::<bool, Seq<char>>(found),
            Err(message) => regex_match(pattern@, text@) == Err::<bool, Seq<char>>(message@),
        },
{
    match regex::Regex::new(pattern) {
        Ok(re) => Ok(re.is_match(text)),
        Err(e) => Err(e.to_string()),
    }
}

/// What replacing every match of a regular expression in a text by a
/// replacement gives (`regex::Regex::replace_all`), if the expression
/// compiles.
pub uninterp spec fn regex_replaced(
    pattern: Seq<char>,
    text: Seq<char>,
    replacement: Seq<char>,
) -> Option<Seq<char>>;

/// Compiles `pattern` (`regex::Regex::new`) and replaces each of its matches
/// in `text` by `replacement` (`regex::Regex::replace_all`); nothing if the
/// pattern does not compile.
#[verifier::external_body]
pub(crate) fn regex_replace_all(pattern: &str, text: &str, replacement: &str) -> (r: Option<
    String,
>)
    ensures
        match r {
            Some(out) => regex_replaced(pattern@, text@, replacement@) == Some(out@),
            None => regex_replaced(pattern@, text@, replacement@) is None,
        },
{
    match regex::Regex::new(pattern) {
        Ok(re) => Some(re.replace_all(text, replacement).into_owned()),
        Err(_) => None,
    }
}

/// What replacing every match of a regular expression in a text gives
/// (`regex::Regex::replace_all`), when each match is replaced by its capture
/// group `first` in uppercase followed by its capture group `rest` in
/// lowercase; nothing if the expression does not compile.
pub uninterp spec fn regex_recased(
    pattern: Seq<char>,
    first: Seq<char>,
    rest: Seq<char>,
    text: Seq<char>,
) -> Option<Seq<char>>;

/// Compiles `pattern` (`regex::Regex::new`) and replaces each of its matches
/// in `text` (`regex::Regex::replace_all`) by what
/// [`recased`](crate::builtins::filters::string::recased) makes of the capture
/// groups named `first` and `rest`; nothing if the pattern does not compile.
#[verifier::external_body]
pub(crate) fn regex_recase(pattern: &str, first: &str, rest: &str, text: &str) -> (r: Option<
    String,
>)
    ensures
        match r {
            Some(out) => regex_recased(pattern@, first@, rest@, text@) == Some(out@),
            None => regex_recased(pattern@, first@, rest@, text@) is None,
        },
{
    let re = regex::Regex::new(pattern).ok()?;
    let out = re.replace_all(text, |caps: &regex::Captures| {
        crate::builtins::filters::string::recased(
            caps.name(first).map_or("", |m| m.as_str()),
            caps.name(rest).map_or("", |m| m.as_str()),
        )
    });
    Some(out.into_owned())
}

/// The timestamp, nanoseconds and offset from UTC, in seconds, that parsing
/// the text as an RFC 3339 date and time gives (`FromStr` of
/// `chrono::DateTime<FixedOffset>`), if it parses.
pub uninterp spec fn rfc3339_moment(s: Seq<char>) -> Option<(i64, u32, i32)>;

/// Parses `s` as an RFC 3339 date and time (`str::parse` to
/// `chrono::DateTime<FixedOffset>`) and hands out its timestamp, its
/// nanoseconds and its offset from UTC in seconds.
#[verifier::external_body]
pub(crate) fn parse_rfc3339(s: &str) -> (r: Option<(i64, u32, i32)>)
    ensures
        r == rfc3339_moment(s@),
{
    match s.parse::<chrono::DateTime<chrono::FixedOffset>>() {
        Ok(dt) => {
            Some((dt.timestamp(), dt.timestamp_subsec_nanos(), dt.offset().local_minus_utc()))
        },
        Err(_) => None,
    }
}

/// The timestamp and nanoseconds that parsing the text as a date and time
/// without time zone gives (`FromStr` of `chrono::NaiveDateTime`), read as
/// UTC, if it parses.
pub uninterp spec fn naive_moment(s: Seq<char>) -> Option<(i64, u32)>;

/// Parses `s` as a date and time without time zone (`str::parse` to
/// `chrono::NaiveDateTime`) and hands out its timestamp and nanoseconds, read
/// as UTC.
#[verifier::external_body]
pub(crate) fn parse_naive_datetime(s: &str) -> (r: Option<(i64, u32)>)
    ensures
        r == naive_moment(s@),
{
    match s.parse::<chrono::NaiveDateTime>() {
        Ok(dt) => Some((dt.and_utc().timestamp(), dt.and_utc().timestamp_subsec_nanos())),
        Err(_) => None,
    }
}

/// The timestamp of midnight UTC of the day that parsing the text as a date
/// in the given format gives (`chrono::NaiveDate::parse_from_str`), if it
/// parses.
pub uninterp spec fn date_moment(s: Seq<char>, format: Seq<char>) -> Option<i64>;

/// Parses `s` as a date in the given format
/// (`chrono::NaiveDate::parse_from_str`) and hands out the timestamp of that
/// day's midnight, UTC.
#[verifier::external_body]
pub(crate) fn parse_date(s: &str, format: &str) -> (r: Option<i64>)
    ensures
        r == date_moment(s@, format@),
{
    match chrono::NaiveDate::parse_from_str(s, format) {
        Ok(date) => date.and_hms_opt(0, 0, 0).map(|dt| dt.and_utc().timestamp()),
        Err(_) => None,
    }
}

/// The text of a date and time without time zone in a format
/// (`chrono::NaiveDateTime::format`); nothing if the timestamp is out of
/// range or the format cannot be used.
pub uninterp spec fn naive_text(seconds: i64, nanos: u32, format: Seq<char>) -> Option<Seq<char>>;

/// Formats the date and time without time zone that the timestamp and
/// nanoseconds stand for (`chrono::NaiveDateTime::format`).
#[verifier::external_body]
pub(crate) fn format_naive(seconds: i64, nanos: u32, format: &str) -> (r: Option<String>)
    ensures
        match r {
            Some(text) => naive_text(seconds, nanos, format@) == Some(text@),
            None => naive_text(seconds, nanos, format@) is None,
        },
{
    let moment = chrono::DateTime::from_timestamp(seconds, nanos)?.naive_utc();
    let mut text = String::new();
    write!(text, "{}", moment.format(format)).ok()?;
    Some(text)
}

/// The text of a date and time in UTC in a format
/// (`chrono::DateTime<Utc>::format`); nothing if the timestamp is out of range
/// or the format cannot be used.
pub uninterp spec fn utc_text(seconds: i64, nanos: u32, format: Seq<char>) -> Option<Seq<char>>;

/// Formats the date and time in UTC that the timestamp and nanoseconds stand
/// for (`chrono::DateTime<Utc>::format`).
#[verifier::external_body]
pub(crate) fn format_utc(seconds: i64, nanos: u32, format: &str) -> (r: Option<String>)
    ensures
        match r {
            Some(text) => utc_text(seconds, nanos, format@) == Some(text@),
            None => utc_text(seconds, nanos, format@) is None,
        },
{
    let moment = chrono::DateTime::from_timestamp(seconds, nanos)?;
    let mut text = String::new();
    write!(text, "{}", moment.format(format)).ok()?;
    Some(text)
}

/// The text of a date and time at an offset from UTC in a format
/// (`chrono::DateTime<FixedOffset>::format`); nothing if the timestamp or the
/// offset is out of range or the format cannot be used.
pub uninterp spec fn fixed_text(
    seconds: i64,
    nanos: u32,
    offset: i32,
    format: Seq<char>,
) -> Option<Seq<char>>;

/// Formats the date and time that the timestamp and nanoseconds stand for,
/// at `offset` seconds east of UTC (`chrono::DateTime<FixedOffset>::format`).
#[verifier::external_body]
pub(crate) fn format_fixed(seconds: i64, nanos: u32, offset: i32, format: &str) -> (r: Option<
    String,
>)
    ensures
        match r {
            Some(text) => fixed_text(seconds, nanos, offset, format@) == Some(text@),
            None => fixed_text(seconds, nanos, offset, format@) is None,
        },
{
    let zone = chrono::FixedOffset::east_opt(offset)?;
    let moment = chrono::DateTime::from_timestamp(seconds, nanos)?.with_timezone(&zone);
    let mut text = String::new();
    write!(text, "{}", moment.format(format)).ok()?;
    Some(text)
}

/// The current time in UTC (`chrono::Utc::now`): its timestamp, and its text
/// as RFC 3339 gives it. Nothing is known of either.
#[verifier::external_body]
pub(crate) fn utc_now() -> (now: (i64, String)) {
    let now = chrono::Utc::now();
    (now.timestamp(), now.to_rfc3339())
}

/// The current time in the machine's time zone (`chrono::Local::now`): its
/// timestamp, and its text as RFC 3339 gives it. Nothing is known of either.
#[verifier::external_body]
pub(crate) fn local_now() -> (now: (i64, String)) {
    let now = chrono::Local::now();
    (now.timestamp(), now.to_rfc3339())
}

} // verus!
