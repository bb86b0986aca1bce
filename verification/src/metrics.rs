//! Reading the metrics that a benchmarked program prints.

use vstd::prelude::*;
use crate::error::{Error, Field};
use crate::number::{is_float, is_float_literal, parse_digits, read_digits};
use crate::text::{
    chars_of, ends_with, has_suffix, remove_each, slice_of, string_of, trim, trimmed, without,
};
use crate::types::{Stats, StatsView, TimeReading, TimeUnit};

verus! {

/// The pattern that finds the elapsed time in the output of a run.
pub const TIME_PATTERN: &'static str = "TIME *: *(.+)";

/// The pattern that finds the rewrite count in the output of a run.
pub const RWTS_PATTERN: &'static str = "RWTS *: *(.+)";

/// What the first capture group of `pattern` holds at the leftmost match of
/// the pattern in `text`; nothing, where the pattern does not match, has no
/// such group, or is no pattern.
pub uninterp spec fn first_capture(pattern: Seq<char>, text: Seq<char>) -> Option<Seq<char>>;

/// The content of an optional string.
pub open spec fn text_of(s: Option<String>) -> Option<Seq<char>> {
    match s {
        Some(s) => Some(s@),
        None => None,
    }
}

/// Searches `text` for `pattern` and hands out the first capture group of the
/// leftmost match.
///
/// Wraps `Regex::new`, `Regex::captures`, `Captures::get` and `Match::as_str`
/// of the crate `regex`. A search depends on the pattern and the text alone;
/// the contract gives its result a name and claims nothing else of it.
#[verifier::external_body]
pub(crate) fn capture(pattern: &str, text: &str) -> (found: Option<String>)
    ensures
        text_of(found) == first_capture(pattern@, text@),
{
    match regex::Regex::new(pattern) {
        Ok(re) => re.captures(text).and_then(|c| c.get(1)).map(|m| m.as_str().to_owned()),
        Err(_) => None,
    }
}

/// The marker of microseconds: the micro sign and `s`.
pub open spec fn micro_marker() -> Seq<char> {
    seq!['\u{b5}', 's']
}

/// The marker of milliseconds.
pub open spec fn milli_marker() -> Seq<char> {
    seq!['m', 's']
}

/// The marker of seconds.
pub open spec fn second_marker() -> Seq<char> {
    seq!['s']
}

/// A time text without its unit marker, and the unit. The markers are tried
/// from microseconds to seconds.
pub open spec fn unit_split(t: Seq<char>) -> Option<(Seq<char>, TimeUnit)> {
    if ends_with(t, micro_marker()) {
        Some((t.take(t.len() - 2), TimeUnit::Micros))
    } else if ends_with(t, milli_marker()) {
        Some((t.take(t.len() - 2), TimeUnit::Millis))
    } else if ends_with(t, second_marker()) {
        Some((t.take(t.len() - 1), TimeUnit::Seconds))
    } else {
        None
    }
}

/// The reading that a number and a unit make, where the number is a
/// floating-point literal, with nothing before or after it.
pub open spec fn number_reading(number: Seq<char>, unit: TimeUnit) -> Option<(Seq<char>, TimeUnit)> {
    if is_float_literal(number) {
        Some((number, unit))
    } else {
        None
    }
}

/// The reading of a time text: the number before the unit marker, without
/// white space around it, and the unit. There is none where no marker ends
/// the text or where what stands before it is no floating-point literal.
pub open spec fn time_reading(t: Seq<char>) -> Option<(Seq<char>, TimeUnit)> {
    match unit_split(t) {
        Some((number, unit)) => number_reading(trimmed(number), unit),
        None => None,
    }
}

/// The count that a text writes: digits, grouped by `_` at will, and nothing
/// else; no sign, and no more than fits.
pub open spec fn rwts_count(t: Seq<char>) -> Option<nat> {
    parse_digits(without(t, '_'), u64::MAX as nat)
}

/// What two field values amount to. The time is looked at first: it is
/// missing or malformed before the count is.
pub open spec fn stats_of(time: Option<Seq<char>>, rwts: Option<Seq<char>>) -> Result<StatsView, Error> {
    match time {
        None => Err(Error::MissingField(Field::Time)),
        Some(t) => match time_reading(t) {
            None => Err(Error::MalformedField(Field::Time)),
            Some((number, unit)) => match rwts {
                None => Err(Error::MissingField(Field::Rwts)),
                Some(r) => match rwts_count(r) {
                    None => Err(Error::MalformedField(Field::Rwts)),
                    Some(n) => Ok(StatsView { number, unit, rwts: n as u64 }),
                },
            },
        },
    }
}

/// The content of a result that holds metrics.
pub open spec fn stats_view(res: Result<Stats, Error>) -> Result<StatsView, Error> {
    match res {
        Ok(stats) => Ok(stats@),
        Err(e) => Err(e),
    }
}

/// A time text that does not end with `s` ends with no marker, so it is
/// malformed, number or not.
pub proof fn lemma_time_needs_unit(t: Seq<char>)
    requires
        t.len() == 0 || t.last() != 's',
    ensures
        time_reading(t) is None,
{
    if t.len() >= 2 {
        assert(t.skip(t.len() - 2)[1] == t.last());
    }
    if t.len() >= 1 {
        assert(t.skip(t.len() - 1)[0] == t.last());
    }
}

/// Parts a time text into what stands before the marker of its unit, and
/// the unit. The markers are the micro sign and `s`, `ms`, and `s`.
pub fn split_unit(time: &str) -> (res: Option<(String, TimeUnit)>)
    ensures
        match unit_split(time@) {
            Some((number, unit)) => res matches Some(parts) && parts.0@ == number && parts.1 == unit,
            None => res is None,
        },
{
    let chars = chars_of(time);
    let mut micro: Vec<char> = Vec::new();
    micro.push('\u{b5}');
    micro.push('s');
    let mut milli: Vec<char> = Vec::new();
    milli.push('m');
    milli.push('s');
    let mut second: Vec<char> = Vec::new();
    second.push('s');
    assert(micro@ == micro_marker());
    assert(milli@ == milli_marker());
    assert(second@ == second_marker());
    let (cut, unit) = if has_suffix(&chars, &micro) {
        (2usize, TimeUnit::Micros)
    } else if has_suffix(&chars, &milli) {
        (2usize, TimeUnit::Millis)
    } else if has_suffix(&chars, &second) {
        (1usize, TimeUnit::Seconds)
    } else {
        return None;
    };
    let head = slice_of(&chars, 0, chars.len() - cut);
    assert(head@ == chars@.take(chars.len() - cut));
    Some((string_of(&head), unit))
}

/// Makes a reading of a number and its unit. The number is to be a
/// floating-point literal as it stands: white space is not passed over.
pub fn time_from_number(number: &str, unit: TimeUnit) -> (res: Result<TimeReading, Error>)
    ensures
        match number_reading(number@, unit) {
            Some((n, u)) => res matches Ok(r) && r.number@ == n && r.unit == u,
            None => res == Err::<TimeReading, Error>(Error::MalformedField(Field::Time)),
        },
{
    let chars = chars_of(number);
    if is_float(&chars) {
        Ok(TimeReading { number: string_of(&chars), unit })
    } else {
        Err(Error::MalformedField(Field::Time))
    }
}

/// Reads an elapsed time: a number and, right at the end, the marker of its
/// unit (the micro sign and `s`, `ms`, or `s`). White space around the
/// number is passed over.
pub fn parse_time(time: &str) -> (res: Result<TimeReading, Error>)
    ensures
        match time_reading(time@) {
            Some((number, unit)) => res matches Ok(r) && r.number@ == number && r.unit == unit,
            None => res == Err::<TimeReading, Error>(Error::MalformedField(Field::Time)),
        },
{
    match split_unit(time) {
        None => Err(Error::MalformedField(Field::Time)),
        Some((number, unit)) => {
            let bare = string_of(&trim(&chars_of(number.as_str())));
            time_from_number(bare.as_str(), unit)
        },
    }
}

/// Reads a rewrite count: digits, which `_` may group. A sign, a blank or
/// any other character makes the count malformed.
pub fn parse_rwts(rwts: &str) -> (res: Result<u64, Error>)
    ensures
        res == match rwts_count(rwts@) {
            Some(n) => Ok::<u64, Error>(n as u64),
            None => Err(Error::MalformedField(Field::Rwts)),
        },
{
    let chars = chars_of(rwts);
    let digits = remove_each(&chars, '_');
    match read_digits(&digits, u64::MAX) {
        Some(n) => Ok(n),
        None => Err(Error::MalformedField(Field::Rwts)),
    }
}

/// Makes the metrics of a run from the values of its two fields, where both
/// are there and well formed.
pub fn stats_from_fields(time: Option<&str>, rwts: Option<&str>) -> (res: Result<Stats, Error>)
    ensures
        stats_view(res) == stats_of(
            match time {
                Some(t) => Some(t@),
                None => None,
            },
            match rwts {
                Some(r) => Some(r@),
                None => None,
            },
        ),
{
    let time = match time {
        None => {
            return Err(Error::MissingField(Field::Time));
        },
        Some(t) => match parse_time(t) {
            Err(_) => {
                return Err(Error::MalformedField(Field::Time));
            },
            Ok(reading) => reading,
        },
    };
    let rwts = match rwts {
        None => {
            return Err(Error::MissingField(Field::Rwts));
        },
        Some(r) => match parse_rwts(r) {
            Err(_) => {
                return Err(Error::MalformedField(Field::Rwts));
            },
            Ok(n) => n,
        },
    };
    Ok(Stats { time, rwts })
}

/// Reads the metrics from the output of a run: the values of the fields
/// `TIME` and `RWTS`, each found by its pattern.
pub fn parse_output(s: &str) -> (res: Result<Stats, Error>)
    ensures
        stats_view(res) == stats_of(first_capture(TIME_PATTERN@, s@), first_capture(RWTS_PATTERN@, s@)),
{
    let time = capture(TIME_PATTERN, s);
    let rwts = capture(RWTS_PATTERN, s);
    stats_from_fields(
        match &time {
            Some(t) => Some(t.as_str()),
            None => None,
        },
        match &rwts {
            Some(r) => Some(r.as_str()),
            None => None,
        },
    )
}

} // verus!
