//! The stored form of a list of results: a header line, then one line for
//! each result, with commas between the fields.

use vstd::prelude::*;
use crate::error::Error;
use crate::mode::{lemma_encoding_is_plain, lemma_mode_round_trip, Mode};
use crate::number::{
    decimal_text, is_digit, is_float, is_float_literal, lemma_decimal_round_trip,
    lemma_float_literal_is_plain, parse_unsigned, push_decimal, read_unsigned,
};
use crate::text::{
    chars_of, has_prefix, index_of, lemma_index_of_is, pieces, slice_of, split, split_at_each,
    starts_with, string_of,
};
use crate::types::{views, Datum, DatumView, Stats, StatsView, TimeReading, TimeUnit};

verus! {

/// The first line of every stored dataset.
pub const HEADER: &'static str = "rev,file,mode,time,rwts\n";

/// The last two fields of a line: the time and the count of the metrics, or
/// two empty fields where there are none.
pub open spec fn stats_fields(stats: Option<StatsView>) -> Seq<char> {
    match stats {
        Some(s) => s.number + seq![','] + decimal_text(s.rwts as nat),
        None => seq![','],
    }
}

/// The line of one result, without its end.
pub open spec fn row_text(d: DatumView) -> Seq<char> {
    d.rev + seq![','] + d.file + seq![','] + d.mode.encoding() + seq![','] + stats_fields(d.stats)
}

/// The lines of a list of results, each with its end.
pub open spec fn rows_text(data: Seq<DatumView>) -> Seq<char>
    decreases data.len(),
{
    if data.len() == 0 {
        Seq::empty()
    } else {
        row_text(data[0]).push('\n') + rows_text(data.skip(1))
    }
}

/// The stored form of a list of results.
pub open spec fn csv_text(data: Seq<DatumView>) -> Seq<char> {
    HEADER@ + rows_text(data)
}

/// Whether every time of `data` is given in seconds, as a stored dataset
/// gives its times.
pub open spec fn in_seconds(data: Seq<DatumView>) -> bool {
    forall|i: int|
        0 <= i < data.len() ==> ((#[trigger] data[i]).stats matches Some(s) ==> s.unit
            == TimeUnit::Seconds)
}

/// A line without the carriage return at its end, if it has one.
pub open spec fn without_cr(line: Seq<char>) -> Seq<char> {
    if line.len() > 0 && line.last() == '\r' {
        line.drop_last()
    } else {
        line
    }
}

/// The lines of a text. A line ends with a line feed, or with a carriage
/// return and a line feed; the last line may go without. Neither belongs to
/// the line.
pub open spec fn lines(s: Seq<char>) -> Seq<Seq<char>>
    decreases s.len(),
{
    if s.len() == 0 {
        Seq::empty()
    } else if index_of(s, '\n') >= s.len() {
        seq![s]
    } else {
        seq![without_cr(s.take(index_of(s, '\n') as int))] + lines(s.skip(index_of(s, '\n') as int + 1))
    }
}

/// The result that five fields make: a revision, a file, the encoding of a
/// mode, and either two empty fields or a floating-point literal and a count.
pub open spec fn row_of_fields(f: Seq<Seq<char>>) -> Option<DatumView> {
    if f.len() != 5 {
        None
    } else {
        match Mode::decode(f[2]) {
            None => None,
            Some(mode) => if f[3].len() == 0 {
                if f[4].len() == 0 {
                    Some(DatumView { rev: f[0], file: f[1], mode, stats: None })
                } else {
                    None
                }
            } else if is_float_literal(f[3]) {
                match parse_unsigned(f[4], u64::MAX as nat) {
                    Some(n) => Some(
                        DatumView {
                            rev: f[0],
                            file: f[1],
                            mode,
                            stats: Some(StatsView { number: f[3], unit: TimeUnit::Seconds, rwts: n as u64 }),
                        },
                    ),
                    None => None,
                }
            } else {
                None
            },
        }
    }
}

/// The result that a line stores, if it stores one.
pub open spec fn parse_row(line: Seq<char>) -> Option<DatumView> {
    row_of_fields(split(line, ','))
}

/// The results that a list of lines stores, if every line stores one.
pub open spec fn parse_rows(all: Seq<Seq<char>>) -> Option<Seq<DatumView>> {
    if forall|i: int| 0 <= i < all.len() ==> (#[trigger] parse_row(all[i])) is Some {
        Some(Seq::new(all.len(), |i: int| parse_row(all[i]).unwrap()))
    } else {
        None
    }
}

/// The results that a text stores, if it is a well-formed dataset: the
/// header line, then lines that each store a result.
pub open spec fn parse_csv(text: Seq<char>) -> Option<Seq<DatumView>> {
    if starts_with(text, HEADER@) {
        parse_rows(lines(text.skip(HEADER@.len() as int)))
    } else {
        None
    }
}

/// Appends every character of `part`.
fn push_all(out: &mut Vec<char>, part: &Vec<char>)
    ensures
        final(out)@ == old(out)@ + part@,
{
    let mut i: usize = 0;
    assert(out@ + part@.take(0) == out@);
    while i < part.len()
        invariant
            i <= part.len(),
            out@ == old(out)@ + part@.take(i as int),
        decreases part.len() - i,
    {
        out.push(part[i]);
        assert(part@.take(i + 1) == part@.take(i as int).push(part@[i as int]));
        i += 1;
    }
    assert(part@.take(part.len() as int) == part@);
}

/// Appends the line of one result, with its end.
fn push_row(out: &mut Vec<char>, entry: &Datum)
    ensures
        final(out)@ == old(out)@ + row_text(entry@).push('\n'),
{
    let ghost start = out@;
    push_all(out, &chars_of(entry.rev.as_str()));
    out.push(',');
    push_all(out, &chars_of(entry.file.as_str()));
    out.push(',');
    push_all(out, &chars_of(entry.mode.to_string().as_str()));
    out.push(',');
    match &entry.stats {
        Some(stats) => {
            push_all(out, &chars_of(stats.time.number.as_str()));
            out.push(',');
            push_decimal(out, stats.rwts);
        },
        None => {
            out.push(',');
        },
    }
    out.push('\n');
    assert(out@ == start + row_text(entry@).push('\n'));
}

/// The results from place `n` on make the lines of the first of them and
/// the lines of those that follow.
proof fn lemma_rows_text_append(data: Seq<DatumView>, n: int)
    requires
        0 <= n < data.len(),
    ensures
        rows_text(data.take(n + 1)) == rows_text(data.take(n)) + row_text(data[n]).push('\n'),
    decreases n,
{
    let longer = data.take(n + 1);
    let shorter = data.take(n);
    if n == 0 {
        assert(longer.skip(1) == Seq::<DatumView>::empty());
        assert(rows_text(longer.skip(1)) == Seq::<char>::empty());
        assert(row_text(data[0]).push('\n') + Seq::<char>::empty() == row_text(data[0]).push('\n'));
        assert(Seq::<char>::empty() + row_text(data[0]).push('\n') == row_text(data[0]).push('\n'));
    } else {
        let tail = data.skip(1);
        lemma_rows_text_append(tail, n - 1);
        assert(longer.skip(1) == tail.take(n));
        assert(shorter.skip(1) == tail.take(n - 1));
        assert(tail[n - 1] == data[n]);
        assert(row_text(data[0]).push('\n') + (rows_text(tail.take(n - 1)) + row_text(data[n]).push('\n'))
            == (row_text(data[0]).push('\n') + rows_text(tail.take(n - 1))) + row_text(data[n]).push(
            '\n',
        ));
    }
}

/// The lines of `s` from place `from` on.
fn lines_from(s: &Vec<char>, from: usize) -> (found: Vec<Vec<char>>)
    requires
        from <= s.len(),
    ensures
        pieces(found@) == lines(s@.skip(from as int)),
{
    let mut found: Vec<Vec<char>> = Vec::new();
    let mut start: usize = from;
    let mut i: usize = from;
    assert(pieces(found@) + lines(s@.skip(from as int)) == lines(s@.skip(from as int)));
    while i < s.len()
        invariant
            from <= start <= i <= s.len(),
            lines(s@.skip(from as int)) == pieces(found@) + lines(s@.skip(start as int)),
            forall|k: int| start <= k < i ==> s@[k] != '\n',
        decreases s.len() - i,
    {
        if s[i] == '\n' {
            let ghost rest = s@.skip(start as int);
            let ghost before = pieces(found@);
            proof {
                lemma_index_of_is(rest, '\n', i - start);
                assert(rest.take(i - start) == s@.subrange(start as int, i as int));
                assert(rest.skip(i - start + 1) == s@.skip(i + 1));
            }
            let end = if i > start && s[i - 1] == '\r' {
                i - 1
            } else {
                i
            };
            let line = slice_of(s, start, end);
            assert(line@ == without_cr(rest.take(i - start)));
            found.push(line);
            assert(pieces(found@) == before.push(line@));
            assert(before + (seq![line@] + lines(s@.skip(i + 1))) == before.push(line@) + lines(
                s@.skip(i + 1),
            ));
            start = i + 1;
        }
        i += 1;
    }
    let ghost rest = s@.skip(start as int);
    let ghost before = pieces(found@);
    if start < s.len() {
        proof {
            lemma_index_of_is(rest, '\n', s.len() - start);
        }
        let line = slice_of(s, start, s.len());
        found.push(line);
        assert(pieces(found@) == before.push(line@));
        assert(before + seq![line@] == before.push(line@));
    } else {
        assert(before + Seq::<Seq<char>>::empty() == before);
    }
    found
}

/// The result that a line stores, if it stores one.
fn read_row(line: &Vec<char>) -> (res: Option<Datum>)
    ensures
        match res {
            Some(d) => parse_row(line@) == Some(d@),
            None => parse_row(line@) is None,
        },
{
    let fields = split_at_each(line, ',');
    let ghost f = pieces(fields@);
    if fields.len() != 5 {
        return None;
    }
    assert(f[0] == fields@[0]@ && f[1] == fields@[1]@ && f[2] == fields@[2]@ && f[3] == fields@[3]@
        && f[4] == fields@[4]@);
    let mode = match Mode::from_str(string_of(&fields[2]).as_str()) {
        Ok(mode) => mode,
        Err(_) => {
            return None;
        },
    };
    let stats = if fields[3].len() == 0 {
        if fields[4].len() != 0 {
            return None;
        }
        None
    } else {
        if !is_float(&fields[3]) {
            return None;
        }
        match read_unsigned(&fields[4], u64::MAX) {
            None => {
                return None;
            },
            Some(rwts) => Some(
                Stats { time: TimeReading { number: string_of(&fields[3]), unit: TimeUnit::Seconds }, rwts },
            ),
        }
    };
    Some(Datum { rev: string_of(&fields[0]), file: string_of(&fields[1]), mode, stats })
}

impl Datum {
    /// Reads a stored dataset: the header line, then one line for each
    /// result. A text of any other form is no dataset.
    pub fn from_csv(csv: &str) -> (res: Result<Vec<Datum>, Error>)
        ensures
            match parse_csv(csv@) {
                Some(data) => res matches Ok(entries) && views(entries@) == data,
                None => res == Err::<Vec<Datum>, Error>(Error::InvalidDatasetFormat),
            },
    {
        let chars = chars_of(csv);
        let header = chars_of(HEADER);
        if !has_prefix(&chars, &header) {
            return Err(Error::InvalidDatasetFormat);
        }
        let all = lines_from(&chars, header.len());
        let ghost texts = pieces(all@);
        assert(parse_csv(csv@) == parse_rows(texts));
        let mut entries: Vec<Datum> = Vec::new();
        let mut i: usize = 0;
        while i < all.len()
            invariant
                i <= all.len(),
                texts == pieces(all@),
                parse_csv(csv@) == parse_rows(texts),
                entries@.len() == i,
                forall|k: int| 0 <= k < i ==> #[trigger] parse_row(texts[k]) == Some(entries@[k]@),
            decreases all.len() - i,
        {
            assert(texts[i as int] == all@[i as int]@);
            match read_row(&all[i]) {
                None => {
                    assert(parse_row(texts[i as int]) is None);
                    return Err(Error::InvalidDatasetFormat);
                },
                Some(entry) => {
                    entries.push(entry);
                },
            }
            i += 1;
        }
        assert(views(entries@) == Seq::new(texts.len(), |i: int| parse_row(texts[i]).unwrap()));
        Ok(entries)
    }


    /// Whether the time of this result, if it has one, is given in seconds.
    pub fn in_seconds(&self) -> (yes: bool)
        ensures
            yes == (self@.stats matches Some(s) ==> s.unit == TimeUnit::Seconds),
    {
        match &self.stats {
            Some(stats) => stats.time.unit == TimeUnit::Seconds,
            None => true,
        }
    }

    /// The stored form of `entries`: the header line, then for each result a
    /// line of its revision, file, mode, time and count. A result without
    /// metrics leaves the last two fields empty.
    ///
    /// A stored time is a number of seconds: there is no stored form where a
    /// time is given in another unit.
    pub fn to_csv(entries: &Vec<Datum>) -> (res: Option<String>)
        ensures
            match res {
                Some(text) => in_seconds(views(entries@)) && text@ == csv_text(views(entries@)),
                None => !in_seconds(views(entries@)),
            },
    {
        let ghost data = views(entries@);
        let mut out = chars_of(HEADER);
        let mut i: usize = 0;
        assert(rows_text(data.take(0)) == Seq::<char>::empty());
        assert(out@ + Seq::<char>::empty() == out@);
        while i < entries.len()
            invariant
                i <= entries.len(),
                data == views(entries@),
                out@ == HEADER@ + rows_text(data.take(i as int)),
                forall|k: int|
                    0 <= k < i ==> ((#[trigger] data[k]).stats matches Some(s) ==> s.unit
                        == TimeUnit::Seconds),
            decreases entries.len() - i,
        {
            assert(data[i as int] == entries@[i as int]@);
            if !entries[i].in_seconds() {
                return None;
            }
            proof {
                lemma_rows_text_append(data, i as int);
            }
            push_row(&mut out, &entries[i]);
            assert(HEADER@ + rows_text(data.take(i as int)) + row_text(data[i as int]).push('\n')
                == HEADER@ + (rows_text(data.take(i as int)) + row_text(data[i as int]).push('\n')));
            i += 1;
        }
        assert(data.take(entries.len() as int) == data);
        Some(string_of(&out))
    }
}

/// Whether a text holds neither a comma nor a line feed.
pub open spec fn plain(s: Seq<char>) -> bool {
    forall|i: int| 0 <= i < s.len() ==> s[i] != ',' && s[i] != '\n'
}

/// Whether a result can be stored and read back: its revision and its file
/// hold neither a comma nor a line feed, and its time, if it has one, is a
/// floating-point literal, in seconds.
pub open spec fn storable(d: DatumView) -> bool {
    &&& plain(d.rev)
    &&& plain(d.file)
    &&& d.stats matches Some(s) ==> s.unit == TimeUnit::Seconds && is_float_literal(s.number)
}

/// A text that begins with a part free of `sep`, and then `sep`, splits into
/// that part and the parts of what follows.
pub proof fn lemma_split_head(a: Seq<char>, rest: Seq<char>, sep: char)
    requires
        forall|i: int| 0 <= i < a.len() ==> a[i] != sep,
    ensures
        split(a + seq![sep] + rest, sep) == seq![a] + split(rest, sep),
{
    let whole = a + seq![sep] + rest;
    lemma_index_of_is(whole, sep, a.len() as int);
    assert(whole.take(a.len() as int) == a);
    assert(whole.skip(a.len() as int + 1) == rest);
}

/// A text free of `sep` is its own single part.
pub proof fn lemma_split_single(a: Seq<char>, sep: char)
    requires
        forall|i: int| 0 <= i < a.len() ==> a[i] != sep,
    ensures
        split(a, sep) == seq![a],
{
    lemma_index_of_is(a, sep, a.len() as int);
}

/// The line of a storable result stores that result, holds no line feed and
/// does not end with a carriage return.
pub proof fn lemma_row_round_trip(d: DatumView)
    requires
        storable(d),
    ensures
        parse_row(row_text(d)) == Some(d),
        row_text(d).len() > 0,
        row_text(d).last() != '\r',
        forall|i: int| 0 <= i < row_text(d).len() ==> row_text(d)[i] != '\n',
{
    let comma = seq![','];
    let enc = d.mode.encoding();
    lemma_encoding_is_plain(d.mode);
    lemma_mode_round_trip(d.mode);
    assert forall|i: int| 0 <= i < enc.len() implies enc[i] != ',' && enc[i] != '\n' by {
        let c = enc[i];
        assert(c == '-' || (0x61 <= c as u32 <= 0x7a));
    }
    let (time, count) = match d.stats {
        Some(s) => (s.number, decimal_text(s.rwts as nat)),
        None => (Seq::<char>::empty(), Seq::<char>::empty()),
    };
    if let Some(s) = d.stats {
        lemma_float_literal_is_plain(s.number);
        lemma_decimal_round_trip(s.rwts as nat, u64::MAX as nat);
    }
    assert forall|i: int| 0 <= i < count.len() implies count[i] != ',' && count[i] != '\n' by {
        assert(is_digit(count[i]));
    }
    let tail3 = time + comma + count;
    let tail2 = enc + comma + tail3;
    let tail1 = d.file + comma + tail2;
    let row = d.rev + comma + tail1;
    assert(row_text(d) == row);
    lemma_split_single(count, ',');
    lemma_split_head(time, count, ',');
    lemma_split_head(enc, tail3, ',');
    lemma_split_head(d.file, tail2, ',');
    lemma_split_head(d.rev, tail1, ',');
    assert(split(row, ',') == seq![d.rev, d.file, enc, time, count]);
    assert(row.last() != '\r') by {
        if count.len() > 0 {
            assert(is_digit(count.last()));
        }
    }
}

/// The lines of the text of storable results are the lines of the results.
pub proof fn lemma_lines_of_rows(data: Seq<DatumView>)
    requires
        forall|i: int| 0 <= i < data.len() ==> storable(#[trigger] data[i]),
    ensures
        lines(rows_text(data)) == Seq::new(data.len(), |i: int| row_text(data[i])),
    decreases data.len(),
{
    if data.len() > 0 {
        let row = row_text(data[0]);
        let rest = data.skip(1);
        assert forall|i: int| 0 <= i < rest.len() implies storable(#[trigger] rest[i]) by {
            assert(rest[i] == data[i + 1]);
        }
        lemma_lines_of_rows(rest);
        lemma_row_round_trip(data[0]);
        let text = rows_text(data);
        assert(text == row.push('\n') + rows_text(rest));
        lemma_index_of_is(text, '\n', row.len() as int);
        assert(text.take(row.len() as int) == row);
        assert(text.skip(row.len() as int + 1) == rows_text(rest));
        assert(lines(text) == seq![row] + lines(rows_text(rest)));
        assert(seq![row] + Seq::new(rest.len(), |i: int| row_text(rest[i])) == Seq::new(
            data.len(),
            |i: int| row_text(data[i]),
        ));
    } else {
        assert(lines(rows_text(data)) == Seq::<Seq<char>>::empty());
    }
}

/// Storing results and reading the text back gives the same results, where
/// each of them is storable.
pub proof fn lemma_csv_round_trip(data: Seq<DatumView>)
    requires
        forall|i: int| 0 <= i < data.len() ==> storable(#[trigger] data[i]),
    ensures
        parse_csv(csv_text(data)) == Some(data),
{
    let text = csv_text(data);
    assert(text.take(HEADER@.len() as int) == HEADER@);
    assert(text.skip(HEADER@.len() as int) == rows_text(data));
    lemma_lines_of_rows(data);
    let all = lines(rows_text(data));
    assert forall|i: int| 0 <= i < all.len() implies #[trigger] parse_row(all[i]) == Some(data[i]) by {
        lemma_row_round_trip(data[i]);
    }
    assert(Seq::new(all.len(), |i: int| parse_row(all[i]).unwrap()) == data);
}

} // verus!
