//! Laying results out as a table: one column per revision, one row per file
//! and mode, the times of a row ranked against each other.

use vstd::pervasive::unreached;
use vstd::prelude::*;
use crate::discover::{FILE_ENDING, TAG_PREFIX};
use crate::mode::Mode;
use crate::text::{
    byte_len, char_width, chars_of, ends_with, has_prefix, has_suffix, push_char, push_repeated, repeat,
    slice_of, starts_with, string_of, texts, utf8_len, utf8_width,
};

verus! {

/// The side of a column on which a cell's text stands.
#[derive(Debug, Clone, Copy, PartialEq, Eq, Structural)]
pub enum Align {
    Left,
    Right,
}

/// How a cell is painted. The buckets run from the best time of a row
/// (`Bucket0`) to the worst (`Bucket4`).
#[derive(Debug, Clone, Copy, PartialEq, Eq, Structural)]
pub enum Style {
    Neutral,
    Header,
    Bucket0,
    Bucket1,
    Bucket2,
    Bucket3,
    Bucket4,
}

/// One cell of the table.
#[derive(Debug, Clone, PartialEq, Eq)]
pub struct Cell {
    pub align: Align,
    pub style: Style,
    pub content: String,
    pub min_width: usize,
}

/// One line of the table: a rule drawn with one character, or cells.
#[derive(Debug, Clone, PartialEq, Eq)]
pub enum Row {
    Separator(char),
    Cells(Vec<Cell>),
}

/// What the table needs of a measured time: a key by which times are
/// ranked, smaller being faster, and the text to show.
#[derive(Debug, Clone, PartialEq, Eq)]
pub struct Timing {
    pub rank: i64,
    pub text: String,
}

/// One result, as the table shows it.
#[derive(Debug, Clone, PartialEq, Eq)]
pub struct Sample {
    pub rev: String,
    pub file: String,
    pub mode: Mode,
    pub time: Option<Timing>,
}

/// The mathematical content of a [`Cell`].
pub struct CellView {
    pub align: Align,
    pub style: Style,
    pub content: Seq<char>,
    pub min_width: nat,
}

/// The mathematical content of a [`Row`].
pub enum RowView {
    Separator(char),
    Cells(Seq<CellView>),
}

/// The mathematical content of a [`Timing`].
pub struct TimingView {
    pub rank: i64,
    pub text: Seq<char>,
}

/// The mathematical content of a [`Sample`].
pub struct SampleView {
    pub rev: Seq<char>,
    pub file: Seq<char>,
    pub mode: Mode,
    pub time: Option<TimingView>,
}

impl View for Cell {
    type V = CellView;

    open spec fn view(&self) -> CellView {
        CellView {
            align: self.align,
            style: self.style,
            content: self.content@,
            min_width: self.min_width as nat,
        }
    }
}

/// The contents of a list of cells.
pub open spec fn cell_views(cells: Seq<Cell>) -> Seq<CellView> {
    cells.map_values(|c: Cell| c@)
}

impl View for Row {
    type V = RowView;

    open spec fn view(&self) -> RowView {
        match self {
            Row::Separator(c) => RowView::Separator(*c),
            Row::Cells(cells) => RowView::Cells(cell_views(cells@)),
        }
    }
}

/// The contents of a list of rows.
pub open spec fn row_views(rows: Seq<Row>) -> Seq<RowView> {
    rows.map_values(|r: Row| r@)
}

impl View for Timing {
    type V = TimingView;

    open spec fn view(&self) -> TimingView {
        TimingView { rank: self.rank, text: self.text@ }
    }
}

impl View for Sample {
    type V = SampleView;

    open spec fn view(&self) -> SampleView {
        SampleView {
            rev: self.rev@,
            file: self.file@,
            mode: self.mode,
            time: match self.time {
                Some(t) => Some(t@),
                None => None,
            },
        }
    }
}

/// The contents of a list of samples.
pub open spec fn sample_views(data: Seq<Sample>) -> Seq<SampleView> {
    data.map_values(|d: Sample| d@)
}

/// The number of bytes to which a revision is cut in the header.
pub const REV_WIDTH: usize = 12;

/// The place of the first sample at or after `from` that holds the given
/// revision, file and mode.
pub open spec fn find_from(
    data: Seq<SampleView>,
    rev: Seq<char>,
    file: Seq<char>,
    mode: Mode,
    from: int,
) -> Option<int>
    decreases data.len() - from,
{
    if from < 0 || from >= data.len() {
        None
    } else if data[from].rev == rev && data[from].file == file && data[from].mode == mode {
        Some(from)
    } else {
        find_from(data, rev, file, mode, from + 1)
    }
}

/// A revision as the header names it: without the prefix `compare-`.
pub open spec fn rev_label(rev: Seq<char>) -> Seq<char> {
    if starts_with(rev, TAG_PREFIX@) {
        rev.skip(TAG_PREFIX@.len() as int)
    } else {
        rev
    }
}

/// A file as the first column names it: without the suffix `.hvmc`.
pub open spec fn file_label(file: Seq<char>) -> Seq<char> {
    if ends_with(file, FILE_ENDING@) {
        file.take(file.len() - FILE_ENDING@.len())
    } else {
        file
    }
}

/// The beginning of `s` that takes exactly `width` bytes in UTF-8, if one of
/// its beginnings does.
pub open spec fn cut(s: Seq<char>, width: nat) -> Option<Seq<char>>
    decreases s.len(),
{
    if width == 0 {
        Some(Seq::empty())
    } else if s.len() == 0 || utf8_width(s[0]) > width {
        None
    } else {
        match cut(s.skip(1), (width - utf8_width(s[0])) as nat) {
            Some(rest) => Some(seq![s[0]] + rest),
            None => None,
        }
    }
}

/// The times of one row: for each revision, the time of the first sample
/// with that revision and the row's file and mode.
pub open spec fn row_times(
    data: Seq<SampleView>,
    revs: Seq<Seq<char>>,
    file: Seq<char>,
    mode: Mode,
) -> Seq<Option<TimingView>> {
    Seq::new(
        revs.len(),
        |i: int|
            match find_from(data, revs[i], file, mode, 0) {
                Some(k) => data[k].time,
                None => None,
            },
    )
}

/// Whether time `j` comes before time `i` when the times of a row are sorted
/// by rank, equal ranks keeping their order.
pub open spec fn sorts_before(times: Seq<Option<TimingView>>, j: int, i: int) -> bool {
    &&& times[j] is Some
    &&& times[i] is Some
    &&& (times[j].unwrap().rank < times[i].unwrap().rank || (times[j].unwrap().rank
        == times[i].unwrap().rank && j < i))
}

/// How many of the first `n` times come before time `i` in sorted order.
pub open spec fn count_before(times: Seq<Option<TimingView>>, i: int, n: int) -> nat
    decreases n,
{
    if n <= 0 {
        0
    } else {
        count_before(times, i, n - 1) + if sorts_before(times, n - 1, i) {
            1nat
        } else {
            0nat
        }
    }
}

/// How many of the first `n` times are present.
pub open spec fn count_present(times: Seq<Option<TimingView>>, n: int) -> nat
    decreases n,
{
    if n <= 0 {
        0
    } else {
        count_present(times, n - 1) + if times[n - 1] is Some {
            1nat
        } else {
            0nat
        }
    }
}

/// The style of the time at place `pos` among `n` sorted times. The first is
/// the best and the last the worst; up to a third next to each of them is
/// good or bad; the rest, and a time that stands alone, is plain.
pub open spec fn bucket(pos: nat, n: nat) -> Style {
    if n <= 1 {
        Style::Bucket2
    } else if pos == n - 1 {
        Style::Bucket4
    } else if n - ((n - 2) / 3 + 1) <= pos {
        Style::Bucket3
    } else if 1 <= pos < (n - 2) / 3 + 1 {
        Style::Bucket1
    } else if pos == 0 {
        Style::Bucket0
    } else {
        Style::Bucket2
    }
}

/// The cell of the `i`-th time of a row.
pub open spec fn time_cell(times: Seq<Option<TimingView>>, i: int) -> CellView {
    CellView {
        align: Align::Right,
        style: match times[i] {
            Some(_) => bucket(
                count_before(times, i, times.len() as int),
                count_present(times, times.len() as int),
            ),
            None => Style::Bucket2,
        },
        content: match times[i] {
            Some(t) => t.text,
            None => Seq::empty(),
        },
        min_width: 0,
    }
}

/// A left-aligned cell without a minimal width.
pub open spec fn plain_cell(style: Style, content: Seq<char>) -> CellView {
    CellView { align: Align::Left, style, content, min_width: 0 }
}

/// The header: `file`, `mode`, and one cell for each revision.
pub open spec fn header(revs: Seq<Seq<char>>) -> Seq<CellView> {
    seq![plain_cell(Style::Header, "file"@), plain_cell(Style::Header, "mode"@)] + Seq::new(
        revs.len(),
        |i: int|
            CellView {
                align: Align::Left,
                style: Style::Header,
                content: match cut(rev_label(revs[i]), REV_WIDTH as nat) {
                    Some(c) => c,
                    None => Seq::empty(),
                },
                min_width: REV_WIDTH as nat,
            },
    )
}

/// The cells of the row of one file and mode. The file is named in the first
/// row of its block only.
pub open spec fn row_cells(
    data: Seq<SampleView>,
    revs: Seq<Seq<char>>,
    file: Seq<char>,
    mode: Mode,
    first: bool,
) -> Seq<CellView> {
    seq![
        plain_cell(Style::Neutral, if first { file_label(file) } else { Seq::empty() }),
        plain_cell(Style::Neutral, mode.encoding()),
    ] + Seq::new(revs.len(), |i: int| time_cell(row_times(data, revs, file, mode), i))
}

/// The block of one file: a rule, then one row for each mode. The rule above
/// the first block is drawn with `=`, the others with `-`.
pub open spec fn block(
    data: Seq<SampleView>,
    revs: Seq<Seq<char>>,
    file: Seq<char>,
    modes: Seq<Mode>,
    first: bool,
) -> Seq<RowView> {
    seq![RowView::Separator(if first { '=' } else { '-' })] + Seq::new(
        modes.len(),
        |m: int| RowView::Cells(row_cells(data, revs, file, modes[m], m == 0)),
    )
}

/// The blocks of the first `n` files.
pub open spec fn body(
    data: Seq<SampleView>,
    revs: Seq<Seq<char>>,
    files: Seq<Seq<char>>,
    modes: Seq<Mode>,
    n: int,
) -> Seq<RowView>
    decreases n,
{
    if n <= 0 {
        Seq::empty()
    } else {
        body(data, revs, files, modes, n - 1) + block(data, revs, files[n - 1], modes, n - 1 == 0)
    }
}

/// The revisions of `data`, each once, in order of first occurrence.
pub open spec fn revs_of(data: Seq<SampleView>) -> Seq<Seq<char>> {
    uniq(data.map_values(|d: SampleView| d.rev))
}

/// The files of `data`, each once, in order of first occurrence.
pub open spec fn files_of(data: Seq<SampleView>) -> Seq<Seq<char>> {
    uniq(data.map_values(|d: SampleView| d.file))
}

/// The modes of `data`, each once, in order of first occurrence.
pub open spec fn modes_of(data: Seq<SampleView>) -> Seq<Mode> {
    uniq(data.map_values(|d: SampleView| d.mode))
}

/// The table of `data`: the header, then the block of each file.
pub open spec fn table(data: Seq<SampleView>) -> Seq<RowView> {
    seq![RowView::Cells(header(revs_of(data)))] + body(
        data,
        revs_of(data),
        files_of(data),
        modes_of(data),
        files_of(data).len() as int,
    )
}

/// Whether every revision of `revs` can be cut to the header's width.
pub open spec fn all_cut(revs: Seq<Seq<char>>) -> bool {
    forall|i: int| 0 <= i < revs.len() ==> (#[trigger] cut(rev_label(revs[i]), REV_WIDTH as nat)) is Some
}

/// Whether `data` holds a sample for the given file and mode at every
/// revision of `revs`.
pub open spec fn row_complete(
    data: Seq<SampleView>,
    revs: Seq<Seq<char>>,
    file: Seq<char>,
    mode: Mode,
) -> bool {
    forall|i: int| 0 <= i < revs.len() ==> (#[trigger] find_from(data, revs[i], file, mode, 0)) is Some
}

/// Whether `data` holds a sample for each of its files at each of its modes
/// and each of its revisions.
pub open spec fn complete(data: Seq<SampleView>) -> bool {
    forall|f: int, m: int|
        0 <= f < files_of(data).len() && 0 <= m < modes_of(data).len() ==> #[trigger] row_complete(
            data,
            revs_of(data),
            files_of(data)[f],
            modes_of(data)[m],
        )
}

/// Whether `data` can be shown as a table: each revision is long enough for
/// the header, and no combination of revision, file and mode is missing.
pub open spec fn printable(data: Seq<SampleView>) -> bool {
    all_cut(revs_of(data)) && complete(data)
}

/// A run of text in one style.
#[derive(Debug, Clone, PartialEq, Eq)]
pub struct Span {
    pub style: Style,
    pub text: String,
}

/// The mathematical content of a [`Span`].
pub struct SpanView {
    pub style: Style,
    pub text: Seq<char>,
}

impl View for Span {
    type V = SpanView;

    open spec fn view(&self) -> SpanView {
        SpanView { style: self.style, text: self.text@ }
    }
}

/// The contents of a list of spans.
pub open spec fn span_views(spans: Seq<Span>) -> Seq<SpanView> {
    spans.map_values(|s: Span| s@)
}

/// The number of blanks between two columns.
pub const GAP: usize = 2;

/// The width that a cell asks of its column: the bytes of its text, or its
/// minimal width where that is more.
pub open spec fn cell_need(cell: CellView) -> nat {
    if utf8_len(cell.content) >= cell.min_width {
        utf8_len(cell.content)
    } else {
        cell.min_width
    }
}

/// The number of columns: the number of cells of the first row of cells.
pub open spec fn column_count(table: Seq<RowView>) -> nat
    decreases table.len(),
{
    if table.len() == 0 {
        0
    } else {
        match table[0] {
            RowView::Cells(cells) => cells.len(),
            RowView::Separator(_) => column_count(table.skip(1)),
        }
    }
}

/// The width that row `row` asks of column `c`.
pub open spec fn row_need(row: RowView, c: int) -> nat {
    match row {
        RowView::Cells(cells) => if 0 <= c < cells.len() {
            cell_need(cells[c])
        } else {
            0
        },
        RowView::Separator(_) => 0,
    }
}

/// The widest that any of the first `n` rows asks of column `c`.
pub open spec fn column_width(table: Seq<RowView>, c: int, n: int) -> nat
    decreases n,
{
    if n <= 0 {
        0
    } else if column_width(table, c, n - 1) >= row_need(table[n - 1], c) {
        column_width(table, c, n - 1)
    } else {
        row_need(table[n - 1], c)
    }
}

/// The width of each column.
pub open spec fn widths(table: Seq<RowView>) -> Seq<nat> {
    Seq::new(column_count(table), |c: int| column_width(table, c, table.len() as int))
}

/// The sum of the first `n` widths.
pub open spec fn sum_of(ws: Seq<nat>, n: int) -> nat
    decreases n,
{
    if n <= 0 {
        0
    } else {
        sum_of(ws, n - 1) + ws[n - 1]
    }
}

/// The width of a whole line: the columns, and a gap between each two.
pub open spec fn line_width(ws: Seq<nat>) -> nat {
    sum_of(ws, ws.len() as int) + if ws.len() > 0 {
        ((ws.len() - 1) * GAP) as nat
    } else {
        0
    }
}

/// The blanks that fill a cell of the given text up to `width`.
pub open spec fn padding(content: Seq<char>, width: nat) -> Seq<char> {
    repeat(' ', if width >= utf8_len(content) { (width - utf8_len(content)) as nat } else { 0 })
}

/// The three spans of the cell in column `c`: the gap to the column before
/// and the blanks left of the text, the text in the cell's style, and the
/// blanks right of it.
pub open spec fn cell_spans(cell: CellView, c: int, width: nat) -> Seq<SpanView> {
    seq![
        SpanView {
            style: Style::Neutral,
            text: (if c != 0 { repeat(' ', GAP as nat) } else { Seq::empty() }) + (if cell.align
                == Align::Right { padding(cell.content, width) } else { Seq::empty() }),
        },
        SpanView { style: cell.style, text: cell.content },
        SpanView {
            style: Style::Neutral,
            text: if cell.align == Align::Left { padding(cell.content, width) } else { Seq::empty() },
        },
    ]
}

/// The width of column `c`; a column that the header does not have is of
/// width 0.
pub open spec fn width_at(ws: Seq<nat>, c: int) -> nat {
    if 0 <= c < ws.len() {
        ws[c]
    } else {
        0
    }
}

/// The spans of the first `n` cells of a row.
pub open spec fn cells_spans(cells: Seq<CellView>, ws: Seq<nat>, n: int) -> Seq<SpanView>
    decreases n,
{
    if n <= 0 {
        Seq::empty()
    } else {
        cells_spans(cells, ws, n - 1) + cell_spans(cells[n - 1], n - 1, width_at(ws, n - 1))
    }
}

/// The spans of one row, the line's end included. A rule is as wide as the
/// whole line.
pub open spec fn row_spans(row: RowView, ws: Seq<nat>) -> Seq<SpanView> {
    match row {
        RowView::Separator(c) => seq![
            SpanView { style: Style::Neutral, text: repeat(c, line_width(ws)).push('\n') },
        ],
        RowView::Cells(cells) => cells_spans(cells, ws, cells.len() as int).push(
            SpanView { style: Style::Neutral, text: seq!['\n'] },
        ),
    }
}

/// The spans of the first `n` rows.
pub open spec fn rows_spans(table: Seq<RowView>, ws: Seq<nat>, n: int) -> Seq<SpanView>
    decreases n,
{
    if n <= 0 {
        Seq::empty()
    } else {
        rows_spans(table, ws, n - 1) + row_spans(table[n - 1], ws)
    }
}

/// The text of a table, line after line, as styled spans.
pub open spec fn layout(table: Seq<RowView>) -> Seq<SpanView> {
    rows_spans(table, widths(table), table.len() as int)
}

/// The widths held by a vector, as natural numbers.
pub open spec fn nats(ws: Seq<u128>) -> Seq<nat> {
    ws.map_values(|w: u128| w as nat)
}

/// `prefix` followed by `rest`, where there is a rest.
pub open spec fn glue(prefix: Seq<char>, rest: Option<Seq<char>>) -> Option<Seq<char>> {
    match rest {
        Some(r) => Some(prefix + r),
        None => None,
    }
}

/// The beginning of `s` that takes exactly `width` bytes, if there is one.
fn cut_to(s: &Vec<char>, width: usize) -> (res: Option<Vec<char>>)
    ensures
        match res {
            Some(v) => cut(s@, width as nat) == Some(v@),
            None => cut(s@, width as nat) is None,
        },
{
    let mut i: usize = 0;
    let mut taken: u128 = 0;
    assert(s@.skip(0) == s@);
    assert(s@.take(0) + s@ == s@);
    loop
        invariant
            i <= s.len(),
            taken <= width,
            cut(s@, width as nat) == glue(s@.take(i as int), cut(s@.skip(i as int), (width - taken) as nat)),
        decreases s.len() - i,
    {
        if taken == width as u128 {
            let v = slice_of(s, 0, i);
            assert(s@.take(i as int) + Seq::<char>::empty() == s@.take(i as int));
            return Some(v);
        }
        if i == s.len() {
            return None;
        }
        let w = char_width(s[i]);
        if w > width as u128 - taken {
            assert(s@.skip(i as int)[0] == s@[i as int]);
            return None;
        }
        proof {
            let rest = s@.skip(i as int);
            assert(rest[0] == s@[i as int]);
            assert(rest.skip(1) == s@.skip(i + 1));
            let tail = cut(s@.skip(i + 1), (width - taken - w) as nat);
            assert(cut(rest, (width - taken) as nat) == glue(seq![s@[i as int]], tail));
            if tail is Some {
                assert(s@.take(i as int) + (seq![s@[i as int]] + tail.unwrap()) == s@.take(i + 1) + tail.unwrap());
            }
        }
        taken = taken + w;
        i += 1;
    }
}

/// The place of the first sample with the given revision, file and mode.
fn find(data: &Vec<Sample>, rev: &String, file: &String, mode: Mode) -> (res: Option<usize>)
    ensures
        match res {
            Some(k) => k < data.len() && find_from(sample_views(data@), rev@, file@, mode, 0) == Some(
                k as int,
            ),
            None => find_from(sample_views(data@), rev@, file@, mode, 0) is None,
        },
{
    let mut i: usize = 0;
    while i < data.len()
        invariant
            i <= data.len(),
            find_from(sample_views(data@), rev@, file@, mode, 0) == find_from(
                sample_views(data@),
                rev@,
                file@,
                mode,
                i as int,
            ),
        decreases data.len() - i,
    {
        assert(sample_views(data@)[i as int] == data@[i as int]@);
        if data[i].rev == *rev && data[i].file == *file && data[i].mode == mode {
            return Some(i);
        }
        i += 1;
    }
    None
}

/// The header row for the given revisions, if each can be cut to width.
fn header_row(revs: &Vec<String>) -> (res: Option<Vec<Cell>>)
    ensures
        match res {
            Some(cells) => all_cut(texts(revs@)) && cell_views(cells@) == header(texts(revs@)),
            None => !all_cut(texts(revs@)),
        },
{
    let mut cells: Vec<Cell> = Vec::new();
    cells.push(Cell { align: Align::Left, style: Style::Header, content: "file".to_owned(), min_width: 0 });
    cells.push(Cell { align: Align::Left, style: Style::Header, content: "mode".to_owned(), min_width: 0 });
    let prefix = chars_of(TAG_PREFIX);
    assert(cell_views(cells@) == header(texts(revs@)).take(2));
    let mut i: usize = 0;
    while i < revs.len()
        invariant
            i <= revs.len(),
            prefix@ == TAG_PREFIX@,
            cell_views(cells@) == header(texts(revs@)).take(2 + i),
            forall|k: int| 0 <= k < i ==> (#[trigger] cut(rev_label(texts(revs@)[k]), REV_WIDTH as nat)) is Some,
        decreases revs.len() - i,
    {
        let chars = chars_of(revs[i].as_str());
        let named = if has_prefix(&chars, &prefix) {
            slice_of(&chars, prefix.len(), chars.len())
        } else {
            chars
        };
        assert(named@ == rev_label(texts(revs@)[i as int]));
        match cut_to(&named, REV_WIDTH) {
            None => {
                return None;
            },
            Some(shown) => {
                let ghost before = cell_views(cells@);
                let cell = Cell {
                    align: Align::Left,
                    style: Style::Header,
                    content: string_of(&shown),
                    min_width: REV_WIDTH,
                };
                cells.push(cell);
                assert(cell_views(cells@) == before.push(cell@));
                assert(header(texts(revs@)).take(2 + i + 1) == header(texts(revs@)).take(2 + i).push(
                    header(texts(revs@))[2 + i],
                ));
            },
        }
        i += 1;
    }
    assert(header(texts(revs@)).take(2 + revs.len()) == header(texts(revs@)));
    Some(cells)
}

/// For each revision, the place of the first sample of the given file and
/// mode, if there is one for every revision.
fn locate(data: &Vec<Sample>, revs: &Vec<String>, file: &String, mode: Mode) -> (res: Option<Vec<usize>>)
    ensures
        match res {
            Some(places) => {
                &&& row_complete(sample_views(data@), texts(revs@), file@, mode)
                &&& places@.len() == revs@.len()
                &&& forall|i: int| 0 <= i < places@.len() ==> #[trigger] places@[i] < data@.len()
                &&& forall|i: int|
                    0 <= i < places@.len() ==> find_from(
                        sample_views(data@),
                        #[trigger] texts(revs@)[i],
                        file@,
                        mode,
                        0,
                    ) == Some(places@[i] as int)
            },
            None => !row_complete(sample_views(data@), texts(revs@), file@, mode),
        },
{
    let mut places: Vec<usize> = Vec::new();
    let mut i: usize = 0;
    while i < revs.len()
        invariant
            i <= revs.len(),
            places@.len() == i,
            forall|k: int| 0 <= k < i ==> #[trigger] places@[k] < data@.len(),
            forall|k: int|
                0 <= k < i ==> find_from(
                    sample_views(data@),
                    #[trigger] texts(revs@)[k],
                    file@,
                    mode,
                    0,
                ) == Some(places@[k] as int),
        decreases revs.len() - i,
    {
        assert(texts(revs@)[i as int] == revs@[i as int]@);
        match find(data, &revs[i], file, mode) {
            None => {
                return None;
            },
            Some(k) => {
                places.push(k);
            },
        }
        i += 1;
    }
    Some(places)
}

/// The times of the samples at the given places.
pub open spec fn picked(data: Seq<SampleView>, places: Seq<usize>) -> Seq<Option<TimingView>> {
    Seq::new(places.len(), |i: int| data[places[i] as int].time)
}

/// The rank of the time of the sample at `place`, if it has a time.
fn rank_at(data: &Vec<Sample>, place: usize) -> (rank: Option<i64>)
    requires
        place < data.len(),
    ensures
        rank == match sample_views(data@)[place as int].time {
            Some(t) => Some(t.rank),
            None => None,
        },
{
    assert(sample_views(data@)[place as int] == data@[place as int]@);
    match &data[place].time {
        Some(t) => Some(t.rank),
        None => None,
    }
}

/// The style of a time at place `pos` among `n` sorted times.
fn bucket_of(pos: usize, n: usize) -> (style: Style)
    requires
        pos < n,
    ensures
        style == bucket(pos as nat, n as nat),
{
    if n <= 1 {
        return Style::Bucket2;
    }
    let third = (n - 2) / 3 + 1;
    if pos == n - 1 {
        Style::Bucket4
    } else if n - third <= pos {
        Style::Bucket3
    } else if 1 <= pos && pos < third {
        Style::Bucket1
    } else if pos == 0 {
        Style::Bucket0
    } else {
        Style::Bucket2
    }
}

/// At most `n` of the first `n` times are present, and fewer times come
/// before a present time than there are present times.
proof fn lemma_counts(times: Seq<Option<TimingView>>, i: int, n: int)
    requires
        0 <= n <= times.len(),
        0 <= i < times.len(),
        times[i] is Some,
    ensures
        count_present(times, n) <= n,
        count_before(times, i, n) <= count_present(times, n),
        i < n ==> count_before(times, i, n) < count_present(times, n),
    decreases n,
{
    if n > 0 {
        lemma_counts(times, i, n - 1);
    }
}

/// `lead`, followed by the cell of each time of the samples at `places`.
fn row_of(data: &Vec<Sample>, places: &Vec<usize>, lead: Vec<Cell>) -> (cells: Vec<Cell>)
    requires
        forall|i: int| 0 <= i < places@.len() ==> places@[i] < data@.len(),
    ensures
        cell_views(cells@) == cell_views(lead@) + Seq::new(
            places@.len(),
            |i: int| time_cell(picked(sample_views(data@), places@), i),
        ),
{
    let ghost times = picked(sample_views(data@), places@);
    let ghost start = cell_views(lead@);
    let ghost wanted = Seq::new(places@.len(), |i: int| time_cell(times, i));
    let n = places.len();
    let mut present: usize = 0;
    let mut j: usize = 0;
    while j < n
        invariant
            j <= n,
            n == places@.len(),
            times == picked(sample_views(data@), places@),
            forall|i: int| 0 <= i < places@.len() ==> places@[i] < data@.len(),
            present == count_present(times, j as int),
            present <= j,
        decreases n - j,
    {
        if rank_at(data, places[j]).is_some() {
            present += 1;
        }
        j += 1;
    }
    let mut cells = lead;
    let mut i: usize = 0;
    assert(start + wanted.take(0) == start);
    while i < n
        invariant
            i <= n,
            n == places@.len(),
            times == picked(sample_views(data@), places@),
            wanted == Seq::new(places@.len(), |i: int| time_cell(times, i)),
            forall|i: int| 0 <= i < places@.len() ==> places@[i] < data@.len(),
            present == count_present(times, n as int),
            cell_views(cells@) == start + wanted.take(i as int),
        decreases n - i,
    {
        let ghost before = cell_views(cells@);
        let place = places[i];
        assert(sample_views(data@)[place as int] == data@[place as int]@);
        let cell = match &data[place].time {
            None => Cell {
                align: Align::Right,
                style: Style::Bucket2,
                content: String::new(),
                min_width: 0,
            },
            Some(t) => {
                let mut pos: usize = 0;
                let mut j: usize = 0;
                while j < n
                    invariant
                        j <= n,
                        i < n,
                        n == places@.len(),
                        times == picked(sample_views(data@), places@),
                        forall|i: int| 0 <= i < places@.len() ==> places@[i] < data@.len(),
                        times[i as int] == Some(t@),
                        pos == count_before(times, i as int, j as int),
                        pos <= j,
                    decreases n - j,
                {
                    match rank_at(data, places[j]) {
                        Some(r) => {
                            if r < t.rank || (r == t.rank && j < i) {
                                pos += 1;
                            }
                        },
                        None => {},
                    }
                    j += 1;
                }
                proof {
                    lemma_counts(times, i as int, n as int);
                }
                Cell {
                    align: Align::Right,
                    style: bucket_of(pos, present),
                    content: t.text.clone(),
                    min_width: 0,
                }
            },
        };
        assert(cell@ == time_cell(times, i as int));
        cells.push(cell);
        assert(cell_views(cells@) == before.push(cell@));
        assert(wanted.take(i + 1) == wanted.take(i as int).push(wanted[i as int]));
        assert(start + wanted.take(i + 1) == (start + wanted.take(i as int)).push(wanted[i as int]));
        i += 1;
    }
    assert(wanted.take(n as int) == wanted);
    cells
}

/// The block of one file, if no combination of it is missing.
fn block_of(data: &Vec<Sample>, revs: &Vec<String>, file: &String, modes: &Vec<Mode>, first: bool) -> (res:
    Option<Vec<Row>>)
    ensures
        match res {
            Some(rows) => {
                &&& forall|m: int|
                    0 <= m < modes@.len() ==> row_complete(
                        sample_views(data@),
                        texts(revs@),
                        file@,
                        #[trigger] modes@[m],
                    )
                &&& row_views(rows@) == block(sample_views(data@), texts(revs@), file@, modes@, first)
            },
            None => exists|m: int|
                0 <= m < modes@.len() && !row_complete(
                    sample_views(data@),
                    texts(revs@),
                    file@,
                    #[trigger] modes@[m],
                ),
        },
{
    let ghost views = sample_views(data@);
    let ghost wanted = block(views, texts(revs@), file@, modes@, first);
    let mut rows: Vec<Row> = Vec::new();
    rows.push(Row::Separator(if first { '=' } else { '-' }));
    assert(row_views(rows@) == wanted.take(1));
    let chars = chars_of(file.as_str());
    let suffix = chars_of(FILE_ENDING);
    let name = if has_suffix(&chars, &suffix) {
        slice_of(&chars, 0, chars.len() - suffix.len())
    } else {
        chars
    };
    assert(name@ == file_label(file@));
    let mut m: usize = 0;
    while m < modes.len()
        invariant
            m <= modes.len(),
            views == sample_views(data@),
            wanted == block(views, texts(revs@), file@, modes@, first),
            name@ == file_label(file@),
            row_views(rows@) == wanted.take(1 + m),
            forall|k: int|
                0 <= k < m ==> row_complete(views, texts(revs@), file@, #[trigger] modes@[k]),
        decreases modes.len() - m,
    {
        let mode = modes[m];
        let places = match locate(data, revs, file, mode) {
            None => {
                return None;
            },
            Some(places) => places,
        };
        let mut lead: Vec<Cell> = Vec::new();
        lead.push(
            Cell {
                align: Align::Left,
                style: Style::Neutral,
                content: if m == 0 {
                    string_of(&name)
                } else {
                    String::new()
                },
                min_width: 0,
            },
        );
        lead.push(Cell { align: Align::Left, style: Style::Neutral, content: mode.to_string(), min_width: 0 });
        let cells = row_of(data, &places, lead);
        proof {
            assert(picked(views, places@) == row_times(views, texts(revs@), file@, mode));
            assert(cell_views(lead@) == seq![
                plain_cell(Style::Neutral, if m == 0 { file_label(file@) } else { Seq::empty() }),
                plain_cell(Style::Neutral, mode.encoding()),
            ]);
            assert(cell_views(cells@) == row_cells(views, texts(revs@), file@, mode, m == 0));
        }
        let ghost before = row_views(rows@);
        let row = Row::Cells(cells);
        rows.push(row);
        assert(row_views(rows@) == before.push(row@));
        assert(wanted.take(1 + m + 1) == wanted.take(1 + m).push(wanted[1 + m]));
        m += 1;
    }
    assert(wanted.take(1 + modes.len()) == wanted);
    Some(rows)
}

/// The revisions, files and modes of `data`, each in the order of `data`.
fn columns(data: &Vec<Sample>) -> (cols: (Vec<String>, Vec<String>, Vec<Mode>))
    ensures
        texts(cols.0@) == sample_views(data@).map_values(|d: SampleView| d.rev),
        texts(cols.1@) == sample_views(data@).map_values(|d: SampleView| d.file),
        cols.2@ == sample_views(data@).map_values(|d: SampleView| d.mode),
{
    let mut revs: Vec<String> = Vec::new();
    let mut files: Vec<String> = Vec::new();
    let mut modes: Vec<Mode> = Vec::new();
    let mut i: usize = 0;
    while i < data.len()
        invariant
            i <= data.len(),
            texts(revs@) == sample_views(data@).map_values(|d: SampleView| d.rev).take(i as int),
            texts(files@) == sample_views(data@).map_values(|d: SampleView| d.file).take(i as int),
            modes@ == sample_views(data@).map_values(|d: SampleView| d.mode).take(i as int),
        decreases data.len() - i,
    {
        let ghost revs_before = texts(revs@);
        let ghost files_before = texts(files@);
        assert(sample_views(data@)[i as int] == data@[i as int]@);
        revs.push(data[i].rev.clone());
        files.push(data[i].file.clone());
        modes.push(data[i].mode);
        assert(texts(revs@) == revs_before.push(data@[i as int].rev@));
        assert(texts(files@) == files_before.push(data@[i as int].file@));
        i += 1;
    }
    (revs, files, modes)
}

/// The table of `data`, if `data` can be shown as one.
fn table_of(data: &Vec<Sample>) -> (res: Option<Vec<Row>>)
    ensures
        match res {
            Some(rows) => printable(sample_views(data@)) && row_views(rows@) == table(sample_views(data@)),
            None => !printable(sample_views(data@)),
        },
{
    let ghost views = sample_views(data@);
    let (rev_col, file_col, mode_col) = columns(data);
    let revs = collect_uniq(&rev_col);
    let files = collect_uniq(&file_col);
    let modes = collect_uniq_modes(&mode_col);
    assert(texts(revs@) == revs_of(views));
    assert(texts(files@) == files_of(views));
    assert(modes@ == modes_of(views));
    let head = match header_row(&revs) {
        None => {
            return None;
        },
        Some(head) => head,
    };
    let mut rows: Vec<Row> = Vec::new();
    let first = Row::Cells(head);
    rows.push(first);
    assert(row_views(rows@) == seq![RowView::Cells(header(revs_of(views)))]);
    let mut f: usize = 0;
    while f < files.len()
        invariant
            f <= files.len(),
            views == sample_views(data@),
            texts(revs@) == revs_of(views),
            texts(files@) == files_of(views),
            modes@ == modes_of(views),
            row_views(rows@) == seq![RowView::Cells(header(revs_of(views)))] + body(
                views,
                revs_of(views),
                files_of(views),
                modes_of(views),
                f as int,
            ),
            forall|k: int, m: int|
                0 <= k < f && 0 <= m < modes@.len() ==> #[trigger] row_complete(
                    views,
                    revs_of(views),
                    files_of(views)[k],
                    modes_of(views)[m],
                ),
        decreases files.len() - f,
    {
        assert(texts(files@)[f as int] == files@[f as int]@);
        let mut rows_of_file = match block_of(data, &revs, &files[f], &modes, f == 0) {
            None => {
                return None;
            },
            Some(rows_of_file) => rows_of_file,
        };
        let ghost before = rows@;
        let ghost added = rows_of_file@;
        rows.append(&mut rows_of_file);
        assert(row_views(before + added) == row_views(before) + row_views(added));
        f += 1;
    }
    Some(rows)
}

/// The width that a cell asks of its column.
fn need_of(cell: &Cell) -> (need: u128)
    ensures
        need == cell_need(cell@),
        need <= 4 * usize::MAX,
{
    let chars = chars_of(cell.content.as_str());
    let len = byte_len(&chars);
    assert(chars@.len() == chars.len());
    if len >= cell.min_width as u128 {
        len
    } else {
        cell.min_width as u128
    }
}

/// The number of columns of a table.
fn count_columns(table: &Vec<Row>) -> (n: usize)
    ensures
        n == column_count(row_views(table@)),
{
    let ghost views = row_views(table@);
    let mut i: usize = 0;
    assert(views.skip(0) == views);
    while i < table.len()
        invariant
            i <= table.len(),
            views == row_views(table@),
            column_count(views) == column_count(views.skip(i as int)),
        decreases table.len() - i,
    {
        assert(views.skip(i as int)[0] == table@[i as int]@);
        assert(views.skip(i as int).skip(1) == views.skip(i + 1));
        match &table[i] {
            Row::Cells(cells) => {
                return cells.len();
            },
            Row::Separator(_) => {},
        }
        i += 1;
    }
    0
}

/// The width of column `c` of a table.
fn width_of_column(table: &Vec<Row>, c: usize) -> (w: u128)
    ensures
        w == column_width(row_views(table@), c as int, table@.len() as int),
        w <= 4 * usize::MAX,
{
    let ghost views = row_views(table@);
    let mut w: u128 = 0;
    let mut r: usize = 0;
    while r < table.len()
        invariant
            r <= table.len(),
            views == row_views(table@),
            w == column_width(views, c as int, r as int),
            w <= 4 * usize::MAX,
        decreases table.len() - r,
    {
        assert(views[r as int] == table@[r as int]@);
        match &table[r] {
            Row::Cells(cells) => {
                if c < cells.len() {
                    assert(cell_views(cells@)[c as int] == cells@[c as int]@);
                    let need = need_of(&cells[c]);
                    if need > w {
                        w = need;
                    }
                }
            },
            Row::Separator(_) => {},
        }
        r += 1;
    }
    w
}

/// The width of each column of a table.
fn widths_of(table: &Vec<Row>) -> (ws: Vec<u128>)
    ensures
        nats(ws@) == widths(row_views(table@)),
        forall|c: int| 0 <= c < ws@.len() ==> #[trigger] ws@[c] <= 4 * usize::MAX,
{
    let ghost wanted = widths(row_views(table@));
    let n = count_columns(table);
    let mut ws: Vec<u128> = Vec::new();
    let mut c: usize = 0;
    while c < n
        invariant
            c <= n,
            n == wanted.len(),
            wanted == widths(row_views(table@)),
            nats(ws@) == wanted.take(c as int),
            forall|k: int| 0 <= k < ws@.len() ==> #[trigger] ws@[k] <= 4 * usize::MAX,
        decreases n - c,
    {
        let ghost before = nats(ws@);
        let w = width_of_column(table, c);
        ws.push(w);
        assert(nats(ws@) == before.push(w as nat));
        assert(wanted.take(c + 1) == wanted.take(c as int).push(wanted[c as int]));
        c += 1;
    }
    assert(wanted.take(n as int) == wanted);
    ws
}

/// The width of a whole line, unless it is more than `usize::MAX`.
fn width_of_line(ws: &Vec<u128>) -> (total: Option<usize>)
    requires
        forall|c: int| 0 <= c < ws@.len() ==> #[trigger] ws@[c] <= 4 * usize::MAX,
    ensures
        match total {
            Some(t) => t == line_width(nats(ws@)),
            None => line_width(nats(ws@)) > usize::MAX,
        },
{
    let ghost all = nats(ws@);
    let mut sum: u128 = 0;
    let mut c: usize = 0;
    while c < ws.len()
        invariant
            c <= ws.len(),
            all == nats(ws@),
            forall|k: int| 0 <= k < ws@.len() ==> #[trigger] ws@[k] <= 4 * usize::MAX,
            sum == sum_of(all, c as int),
            sum <= usize::MAX,
        decreases ws.len() - c,
    {
        assert(all[c as int] == ws@[c as int] as nat);
        let next = sum + ws[c];
        if next > usize::MAX as u128 {
            proof {
                lemma_sum_grows(all, c + 1, all.len() as int);
            }
            return None;
        }
        sum = next;
        c += 1;
    }
    let gaps: u128 = if ws.len() > 0 {
        (ws.len() - 1) as u128 * GAP as u128
    } else {
        0
    };
    let total = sum + gaps;
    if total > usize::MAX as u128 {
        None
    } else {
        Some(total as usize)
    }
}

/// A longer beginning of a list of widths has no smaller sum.
proof fn lemma_sum_grows(ws: Seq<nat>, m: int, n: int)
    requires
        m <= n,
    ensures
        sum_of(ws, m) <= sum_of(ws, n),
    decreases n - m,
{
    if m < n {
        lemma_sum_grows(ws, m, n - 1);
    }
}

/// Appends the three spans of the cell in column `c`.
fn push_cell(spans: &mut Vec<Span>, cell: &Cell, c: usize, width: u128)
    ensures
        span_views(final(spans)@) == span_views(old(spans)@) + cell_spans(cell@, c as int, width as nat),
{
    let ghost before = span_views(spans@);
    let chars = chars_of(cell.content.as_str());
    let len = byte_len(&chars);
    let pad: u128 = if width >= len {
        width - len
    } else {
        0
    };
    let mut left = String::new();
    if c != 0 {
        push_repeated(&mut left, ' ', GAP as u128);
    }
    if cell.align == Align::Right {
        push_repeated(&mut left, ' ', pad);
    }
    let mut right = String::new();
    if cell.align == Align::Left {
        push_repeated(&mut right, ' ', pad);
    }
    let first = Span { style: Style::Neutral, text: left };
    let second = Span { style: cell.style, text: cell.content.clone() };
    let third = Span { style: Style::Neutral, text: right };
    proof {
        let wanted = cell_spans(cell@, c as int, width as nat);
        assert(Seq::<char>::empty() + repeat(' ', pad as nat) == repeat(' ', pad as nat));
        assert(Seq::<char>::empty() + repeat(' ', GAP as nat) == repeat(' ', GAP as nat));
        assert(Seq::<char>::empty() + Seq::<char>::empty() == Seq::<char>::empty());
        assert(repeat(' ', GAP as nat) + Seq::<char>::empty() == repeat(' ', GAP as nat));
        assert(first@ == wanted[0]);
        assert(second@ == wanted[1]);
        assert(third@ == wanted[2]);
    }
    spans.push(first);
    assert(span_views(spans@) == before.push(first@));
    spans.push(second);
    assert(span_views(spans@) == before.push(first@).push(second@));
    spans.push(third);
    assert(span_views(spans@) == before.push(first@).push(second@).push(third@));
    assert(before.push(first@).push(second@).push(third@) == before + cell_spans(
        cell@,
        c as int,
        width as nat,
    ));
}

/// Appends the spans of one row.
fn push_row(spans: &mut Vec<Span>, row: &Row, ws: &Vec<u128>, total: usize)
    requires
        total == line_width(nats(ws@)),
    ensures
        span_views(final(spans)@) == span_views(old(spans)@) + row_spans(row@, nats(ws@)),
{
    let ghost before = span_views(spans@);
    match row {
        Row::Separator(c) => {
            let mut text = String::new();
            push_repeated(&mut text, *c, total as u128);
            push_char(&mut text, '\n');
            let rule = Span { style: Style::Neutral, text };
            assert(Seq::<char>::empty() + repeat(*c, total as nat) == repeat(*c, total as nat));
            spans.push(rule);
            assert(span_views(spans@) == before.push(rule@));
            assert(before.push(rule@) == before + row_spans(row@, nats(ws@)));
        },
        Row::Cells(cells) => {
            let ghost views = cell_views(cells@);
            let mut c: usize = 0;
            assert(before + cells_spans(views, nats(ws@), 0) == before);
            while c < cells.len()
                invariant
                    c <= cells.len(),
                    views == cell_views(cells@),
                    span_views(spans@) == before + cells_spans(views, nats(ws@), c as int),
                decreases cells.len() - c,
            {
                let width = if c < ws.len() {
                    ws[c]
                } else {
                    0
                };
                assert(width as nat == width_at(nats(ws@), c as int));
                assert(views[c as int] == cells@[c as int]@);
                let ghost so_far = span_views(spans@);
                push_cell(spans, &cells[c], c, width);
                assert(before + cells_spans(views, nats(ws@), c + 1) == so_far + cell_spans(
                    views[c as int],
                    c as int,
                    width as nat,
                ));
                c += 1;
            }
            let mut text = String::new();
            push_char(&mut text, '\n');
            let end = Span { style: Style::Neutral, text };
            assert(Seq::<char>::empty().push('\n') == seq!['\n']);
            let ghost so_far = span_views(spans@);
            spans.push(end);
            assert(span_views(spans@) == so_far.push(end@));
            assert(so_far.push(end@) == before + row_spans(row@, nats(ws@)));
        },
    }
}

/// Lays a table out as text: every column as wide as its widest cell, two
/// blanks between columns, every rule as wide as the line, and a line's end
/// after every row. The text comes as spans, each to be written in its style.
///
/// There is no layout where a line would be wider than `usize::MAX` bytes.
pub fn print_table(table: &Vec<Row>) -> (res: Option<Vec<Span>>)
    ensures
        match res {
            Some(spans) => line_width(widths(row_views(table@))) <= usize::MAX && span_views(spans@)
                == layout(row_views(table@)),
            None => line_width(widths(row_views(table@))) > usize::MAX,
        },
{
    let ghost views = row_views(table@);
    let ws = widths_of(table);
    let total = match width_of_line(&ws) {
        None => {
            return None;
        },
        Some(total) => total,
    };
    let mut spans: Vec<Span> = Vec::new();
    let mut r: usize = 0;
    while r < table.len()
        invariant
            r <= table.len(),
            views == row_views(table@),
            nats(ws@) == widths(views),
            total == line_width(nats(ws@)),
            span_views(spans@) == rows_spans(views, widths(views), r as int),
        decreases table.len() - r,
    {
        assert(views[r as int] == table@[r as int]@);
        push_row(&mut spans, &table[r], &ws, total);
        r += 1;
    }
    Some(spans)
}

/// Whether `data` can be shown as a table: every revision, cut of the prefix
/// `compare-`, has a beginning of exactly twelve bytes, and every revision,
/// file and mode of `data` occur together in one sample.
pub fn is_printable(data: &Vec<Sample>) -> (yes: bool)
    ensures
        yes == printable(sample_views(data@)),
{
    table_of(data).is_some()
}

/// The table of `data`: a header that names the revisions, then for each file
/// a rule and one row for each mode. In a row, the times are styled by their
/// rank among the times of that row.
///
/// The data is to be such that it can be shown: see [`is_printable`].
pub fn pretty_table(data: &Vec<Sample>) -> (rows: Vec<Row>)
    requires
        printable(sample_views(data@)),
    ensures
        row_views(rows@) == table(sample_views(data@)),
{
    match table_of(data) {
        Some(rows) => rows,
        None => unreached(),
    }
}

/// The table of `data`, laid out as styled text: see [`pretty_table`] and
/// [`print_table`]. There is no layout where a line would be wider than
/// `usize::MAX` bytes.
///
/// The data is to be such that it can be shown: see [`is_printable`].
pub fn pretty_print_data(data: &Vec<Sample>) -> (res: Option<Vec<Span>>)
    requires
        printable(sample_views(data@)),
    ensures
        match res {
            Some(spans) => line_width(widths(table(sample_views(data@)))) <= usize::MAX && span_views(
                spans@,
            ) == layout(table(sample_views(data@))),
            None => line_width(widths(table(sample_views(data@)))) > usize::MAX,
        },
{
    let rows = pretty_table(data);
    print_table(&rows)
}

/// The distinct items of `s`, each at the place of its first occurrence.
pub open spec fn uniq<T>(s: Seq<T>) -> Seq<T>
    decreases s.len(),
{
    if s.len() == 0 {
        Seq::empty()
    } else if uniq(s.drop_last()).contains(s.last()) {
        uniq(s.drop_last())
    } else {
        uniq(s.drop_last()).push(s.last())
    }
}

/// A list with one more item holds what the list held, and that item.
proof fn lemma_push_contains<T>(s: Seq<T>, x: T, y: T)
    ensures
        s.push(x).contains(y) <==> s.contains(y) || x == y,
{
    if s.contains(y) {
        let k = choose|k: int| 0 <= k < s.len() && s[k] == y;
        assert(s.push(x)[k] == y);
    }
    if x == y {
        assert(s.push(x)[s.len() as int] == y);
    }
}

/// The distinct strings of `items`, in the order in which they first occur.
pub fn collect_uniq(items: &Vec<String>) -> (out: Vec<String>)
    ensures
        texts(out@) == uniq(texts(items@)),
{
    let mut out: Vec<String> = Vec::new();
    let mut i: usize = 0;
    while i < items.len()
        invariant
            i <= items.len(),
            texts(out@) == uniq(texts(items@).take(i as int)),
        decreases items.len() - i,
    {
        let mut seen = false;
        let mut j: usize = 0;
        while j < out.len()
            invariant
                j <= out.len(),
                i < items.len(),
                seen == texts(out@).take(j as int).contains(items@[i as int]@),
            decreases out.len() - j,
        {
            if out[j] == items[i] {
                seen = true;
            }
            assert(texts(out@).take(j + 1) == texts(out@).take(j as int).push(out@[j as int]@));
            proof {
                lemma_push_contains(texts(out@).take(j as int), out@[j as int]@, items@[i as int]@);
            }
            j += 1;
        }
        assert(texts(out@).take(out.len() as int) == texts(out@));
        assert(texts(items@).take(i + 1).drop_last() == texts(items@).take(i as int));
        assert(texts(items@).take(i + 1).last() == items@[i as int]@);
        if !seen {
            let ghost before = texts(out@);
            out.push(items[i].clone());
            assert(texts(out@) == before.push(items@[i as int]@));
        }
        i += 1;
    }
    assert(texts(items@).take(items.len() as int) == texts(items@));
    out
}

/// The distinct modes of `items`, in the order in which they first occur.
pub fn collect_uniq_modes(items: &Vec<Mode>) -> (out: Vec<Mode>)
    ensures
        out@ == uniq(items@),
{
    let mut out: Vec<Mode> = Vec::new();
    let mut i: usize = 0;
    while i < items.len()
        invariant
            i <= items.len(),
            out@ == uniq(items@.take(i as int)),
        decreases items.len() - i,
    {
        let mut seen = false;
        let mut j: usize = 0;
        while j < out.len()
            invariant
                j <= out.len(),
                i < items.len(),
                seen == out@.take(j as int).contains(items@[i as int]),
            decreases out.len() - j,
        {
            if out[j] == items[i] {
                seen = true;
            }
            assert(out@.take(j + 1) == out@.take(j as int).push(out@[j as int]));
            proof {
                lemma_push_contains(out@.take(j as int), out@[j as int], items@[i as int]);
            }
            j += 1;
        }
        assert(out@.take(out.len() as int) == out@);
        assert(items@.take(i + 1).drop_last() == items@.take(i as int));
        assert(items@.take(i + 1).last() == items@[i as int]);
        if !seen {
            out.push(items[i]);
        }
        i += 1;
    }
    assert(items@.take(items.len() as int) == items@);
    out
}

} // verus!
