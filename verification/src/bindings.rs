//! The library's trusted boundary: declarations of outside types, and the
//! small functions whose bodies call std or outside crates. Verus believes
//! the contracts written here; each doc comment says what is claimed.
use vstd::prelude::*;

use crate::content::Date;
use crate::text::opt_view;

verus! {

/// `String::push`: appends one character.
#[verifier::external_body]
pub(crate) fn push_char(s: &mut String, c: char)
    ensures
        final(s)@ == old(s)@.push(c),
{
    s.push(c)
}


/// What `url::Url::parse` makes of a text: `None` where it fails, else the
/// URL's scheme and its host as `host_str` gives it.
pub uninterp spec fn url_parse(text: Seq<char>) -> Option<(Seq<char>, Option<Seq<char>>)>;

/// `url::Url::parse`, with the parsed URL's `scheme()` and `host_str()`.
/// Claims only that the outcome is the one `url_parse` names for the text.
#[verifier::external_body]
pub(crate) fn parse_url(text: &str) -> (parts: Option<(String, Option<String>)>)
    ensures
        match parts {
            None => url_parse(text@) is None,
            Some((scheme, host)) => url_parse(text@) == Some((scheme@, opt_view(host))),
        },
{
    match url::Url::parse(text) {
        Ok(url) => Some((url.scheme().to_owned(), url.host_str().map(str::to_owned))),
        Err(_) => None,
    }
}

/// Whether percent-encoding keeps a byte as it is in a path segment: ASCII
/// letters, digits, and `-`, `.`, `_`, `~`.
pub open spec fn is_unreserved_byte(b: u8) -> bool {
    (0x30 <= b && b <= 0x39) || (0x41 <= b && b <= 0x5a) || (0x61 <= b && b <= 0x7a)
        || b == 0x2d || b == 0x2e || b == 0x5f || b == 0x7e
}

/// The uppercase hexadecimal digit for `n` (below 16).
pub open spec fn hex_digit_upper(n: u8) -> char {
    if n < 10 {
        (n + 0x30) as char
    } else {
        (n - 10 + 0x41) as char
    }
}

/// Percent-encoding of bytes: unreserved bytes as their character, every
/// other byte as `%` and two uppercase hexadecimal digits.
pub open spec fn percent_encode_bytes(bytes: Seq<u8>) -> Seq<char>
    decreases bytes.len(),
{
    if bytes.len() == 0 {
        Seq::empty()
    } else {
        let b = bytes[0];
        let head = if is_unreserved_byte(b) {
            seq![b as char]
        } else {
            seq!['%', hex_digit_upper(b / 16), hex_digit_upper(b % 16)]
        };
        head + percent_encode_bytes(bytes.drop_first())
    }
}

/// A text percent-encoded as one URL path segment: its UTF-8 bytes encoded
/// with every byte but the unreserved ones escaped.
pub open spec fn path_segment_encoding(text: Seq<char>) -> Seq<char> {
    percent_encode_bytes(vstd::utf8::encode_utf8(text))
}

/// `percent_encoding::percent_encode_byte`: the escape `%XX` of a byte, with
/// uppercase hexadecimal digits (the crate's own table).
#[verifier::external_body]
pub(crate) fn percent_escape_byte(byte: u8) -> (escape: &'static str)
    ensures
        escape@ == seq!['%', hex_digit_upper(byte / 16), hex_digit_upper(byte % 16)],
{
    percent_encoding::percent_encode_byte(byte)
}


/// `std::str::Utf8Error`, carried in content errors.
#[verifier::external_type_specification]
#[verifier::external_body]
pub struct ExUtf8Error(std::str::Utf8Error);

/// `serde_json::Error`, carried in content errors.
#[verifier::external_type_specification]
#[verifier::external_body]
pub struct ExJsonError(serde_json::Error);

/// `serde_yaml_ng::Error`, carried in content errors.
#[verifier::external_type_specification]
#[verifier::external_body]
pub struct ExYamlError(serde_yaml_ng::Error);

/// `chrono::ParseError`, carried in content errors.
#[verifier::external_type_specification]
#[verifier::external_body]
pub struct ExChronoParseError(chrono::ParseError);

/// `std::fmt::Error`, carried in content errors.
#[verifier::external_type_specification]
#[verifier::external_body]
pub struct ExFmtError(std::fmt::Error);

/// `std::io::Error`, carried in asset errors.
#[verifier::external_type_specification]
#[verifier::external_body]
pub struct ExIoError(std::io::Error);

/// `std::path::PathBuf`, carried in asset errors.
#[verifier::external_type_specification]
#[verifier::external_body]
pub struct ExPathBuf(std::path::PathBuf);

/// `std::num::ParseIntError`, carried in configuration errors.
#[verifier::external_type_specification]
#[verifier::external_body]
pub struct ExParseIntError(std::num::ParseIntError);

/// The error `std::str::from_utf8` reports for bytes that are not valid
/// UTF-8 (where the valid prefix ends, and how long the bad sequence is).
pub uninterp spec fn utf8_error(bytes: Seq<u8>) -> std::str::Utf8Error;

/// `std::str::from_utf8`, keeping an owned copy of the text. Its documentation:
/// the bytes are accepted exactly when they are valid UTF-8, and the text is
/// what they encode. The error is the one `utf8_error` names for the bytes.
#[verifier::external_body]
pub(crate) fn utf8_text(bytes: &[u8]) -> (text: Result<String, std::str::Utf8Error>)
    ensures
        text is Ok <==> vstd::utf8::valid_utf8(bytes@),
        text matches Ok(t) ==> t@ == vstd::utf8::decode_utf8(bytes@),
        text matches Err(e) ==> e == utf8_error(bytes@),
{
    match std::str::from_utf8(bytes) {
        Ok(text) => Ok(text.to_owned()),
        Err(error) => Err(error),
    }
}

/// What `std::path::Path::file_name` gives for a path, as text: the final
/// component when it is a normal one, `None` otherwise.
pub uninterp spec fn path_file_name(path: Seq<char>) -> Option<Seq<char>>;

/// `Path::file_name` of a UTF-8 path (its name is UTF-8 too, so `to_str`
/// keeps it). Claims only that the outcome is the one `path_file_name` names.
#[verifier::external_body]
pub(crate) fn file_name(path: &str) -> (name: Option<String>)
    ensures
        opt_view(name) == path_file_name(path@),
{
    std::path::Path::new(path).file_name().and_then(|name| name.to_str()).map(str::to_owned)
}

/// Whether two paths are equal as `std::path::Path` compares them
/// (component by component).
pub uninterp spec fn paths_equal(a: Seq<char>, b: Seq<char>) -> bool;

/// `<Path as PartialEq>::eq`. Claims only that the answer is the one
/// `paths_equal` names.
#[verifier::external_body]
pub(crate) fn path_eq(a: &str, b: &str) -> (eq: bool)
    ensures
        eq == paths_equal(a@, b@),
{
    std::path::Path::new(a) == std::path::Path::new(b)
}

/// Whether `base` is a leading run of whole components of `path`, as
/// `std::path::Path::starts_with` decides.
pub uninterp spec fn path_starts_with(path: Seq<char>, base: Seq<char>) -> bool;

/// `Path::starts_with`. Claims only that the answer is the one
/// `path_starts_with` names.
#[verifier::external_body]
pub(crate) fn path_has_base(path: &str, base: &str) -> (b: bool)
    ensures
        b == path_starts_with(path@, base@),
{
    std::path::Path::new(path).starts_with(base)
}

/// What `chrono::NaiveDate::parse_from_str` makes of a value and a format:
/// the date it denotes, or the parse error it reports.
pub uninterp spec fn parsed_date(value: Seq<char>, format: Seq<char>) -> Result<Date, chrono::ParseError>;

/// `NaiveDate::parse_from_str`, with the date taken apart into year, month
/// and day. Claims that the outcome, date or error, is the one `parsed_date`
/// names, and that a date it gives is one `NaiveDate` can hold (a
/// `NaiveDate` is never anything else).
#[verifier::external_body]
pub(crate) fn parse_date(value: &str, format: &str) -> (date: Result<Date, chrono::ParseError>)
    ensures
        date == parsed_date(value@, format@),
        date matches Ok(d) ==> is_calendar_date(d.year, d.month, d.day),
{
    chrono::NaiveDate::parse_from_str(value, format).map(|d| Date {
        year: chrono::Datelike::year(&d),
        month: chrono::Datelike::month(&d),
        day: chrono::Datelike::day(&d),
    })
}

/// `rand::seq::IndexedRandom::choose` with the thread's generator
/// (`rand::rng()`): one of the items, picked at random; `None` exactly when
/// there are none. Which item comes back is left open.
#[verifier::external_body]
pub(crate) fn choose_one(items: &Vec<String>) -> (chosen: Option<&String>)
    ensures
        chosen is Some <==> items@.len() > 0,
        chosen matches Some(s) ==> exists|i: int| 0 <= i < items@.len() && items@[i] == *s,
{
    rand::seq::IndexedRandom::choose(items.as_slice(), &mut rand::rng())
}

/// What the `Debug` format writes for a text: the text in double quotes,
/// with the characters that need it escaped.
pub uninterp spec fn debug_quoted(text: Seq<char>) -> Seq<char>;

/// `<str as Debug>::fmt`, through `format!("{:?}")`. Claims only that the
/// outcome is the one `debug_quoted` names for the text.
#[verifier::external_body]
pub(crate) fn debug_text(text: &str) -> (quoted: String)
    ensures
        quoted@ == debug_quoted(text@),
{
    format!("{:?}", text)
}

/// An ASCII decimal digit.
pub open spec fn is_decimal_digit(c: char) -> bool {
    '0' <= c && c <= '9'
}

/// The number a run of decimal digits denotes.
pub open spec fn digits_value(digits: Seq<char>) -> nat
    decreases digits.len(),
{
    if digits.len() == 0 {
        0
    } else {
        digits_value(digits.drop_last()) * 10 + (digits.last() as nat - 0x30) as nat
    }
}

/// What `str::parse::<u16>` accepts, as its documentation gives it: an
/// optional `+` followed by one or more decimal digits, denoting at most
/// `u16::MAX`; `None` for every other text.
pub open spec fn parsed_u16(text: Seq<char>) -> Option<u16> {
    let digits = if text.len() > 0 && text[0] == '+' {
        text.drop_first()
    } else {
        text
    };
    if digits.len() > 0 && (forall|i: int| 0 <= i < digits.len() ==> is_decimal_digit(#[trigger] digits[i]))
        && digits_value(digits) <= 0xffff {
        Some(digits_value(digits) as u16)
    } else {
        None
    }
}

/// `str::parse::<u16>`: the number the text denotes, or the parse error.
#[verifier::external_body]
pub(crate) fn parse_u16(text: &str) -> (n: Result<u16, std::num::ParseIntError>)
    ensures
        n is Ok <==> parsed_u16(text@) is Some,
        n matches Ok(v) ==> parsed_u16(text@) == Some(v),
{
    text.parse::<u16>()
}

/// The last `width` decimal digits of `n`, with leading zeros.
pub open spec fn zero_padded(n: nat, width: nat) -> Seq<char>
    decreases width,
{
    if width == 0 {
        Seq::empty()
    } else {
        zero_padded(n / 10, (width - 1) as nat).push(crate::text::digit_char(n % 10))
    }
}

/// A leap year of the proleptic Gregorian calendar.
pub open spec fn is_leap_year(year: int) -> bool {
    year % 4 == 0 && (year % 100 != 0 || year % 400 == 0)
}

/// The number of days in a month of a year.
pub open spec fn days_in_month(year: int, month: int) -> int {
    if month == 2 {
        if is_leap_year(year) {
            29
        } else {
            28
        }
    } else if month == 4 || month == 6 || month == 9 || month == 11 {
        30
    } else {
        31
    }
}

/// A date `chrono::NaiveDate` can hold: a year from -262143 to 262142, a
/// month from 1 to 12, and a day of that month.
pub open spec fn is_calendar_date(year: i32, month: u32, day: u32) -> bool {
    &&& -262143 <= year <= 262142
    &&& 1 <= month <= 12
    &&& 1 <= day <= days_in_month(year as int, month as int)
}

/// How `chrono` writes a year: zero-padded to four digits from 0 to 9999;
/// outside that range with its sign and at least four digits.
pub open spec fn year_text(year: int) -> Seq<char> {
    if 0 <= year <= 9999 {
        zero_padded(year as nat, 4)
    } else {
        let magnitude: nat = if year < 0 { (-year) as nat } else { year as nat };
        let sign = if year < 0 { '-' } else { '+' };
        seq![sign] + if magnitude < 10000 { zero_padded(magnitude, 4) } else { crate::text::decimal(magnitude) }
    }
}

/// How `chrono` shows a date (`%Y-%m-%d`): the year as `year_text` writes
/// it, then month and day with two digits each.
pub open spec fn date_text(year: i32, month: u32, day: u32) -> Seq<char> {
    year_text(year as int) + seq!['-'] + zero_padded(month as nat, 2) + seq!['-'] + zero_padded(day as nat, 2)
}

/// `chrono::NaiveDate::from_ymd_opt` and the date's `Display`. The date
/// exists exactly for a valid month and day within chrono's year range, and
/// shows as `date_text` writes it.
#[verifier::external_body]
pub(crate) fn display_date(date: Date) -> (text: Option<String>)
    ensures
        opt_view(text) == if is_calendar_date(date.year, date.month, date.day) {
            Some(date_text(date.year, date.month, date.day))
        } else {
            None::<Seq<char>>
        },
{
    chrono::NaiveDate::from_ymd_opt(date.year, date.month, date.day).map(|d| d.to_string())
}

} // verus!
