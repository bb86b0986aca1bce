use hvm_bench::mode::Mode;
use hvm_bench::pretty::{
    collect_uniq, collect_uniq_modes, is_printable, pretty_print_data, pretty_table, print_table, Align, Cell,
    Row, Sample, Span, Style, Timing,
};

const INTR_SINGL: Mode = Mode { compiled: false, multi: false };
const COMP_MULTI: Mode = Mode { compiled: true, multi: true };

/// The key that orders times as `f64::total_cmp` does.
fn rank(time: f64) -> i64 {
    let bits = time.to_bits() as i64;
    bits ^ ((((bits >> 63) as u64) >> 1) as i64)
}

fn sample(rev: &str, file: &str, mode: Mode, time: Option<f64>) -> Sample {
    Sample {
        rev: rev.to_owned(),
        file: file.to_owned(),
        mode,
        time: time.map(|t| Timing { rank: rank(t), text: format!("{:.3} s", t) }),
    }
}

fn cell(align: Align, style: Style, content: &str, min_width: usize) -> Cell {
    Cell { align, style, content: content.to_owned(), min_width }
}

fn text_of(spans: &[Span]) -> String {
    spans.iter().map(|s| s.text.as_str()).collect()
}

/// The styles of a row of times, by sorting them.
fn styles_by_sorting(times: &[Option<f64>]) -> Vec<Style> {
    let mut cells: Vec<(Option<f64>, Style)> = times.iter().map(|t| (*t, Style::Bucket2)).collect();
    let mut sorted: Vec<(f64, &mut Style)> = cells.iter_mut().filter_map(|x| Some((x.0?, &mut x.1))).collect();
    sorted.sort_by(|a, b| f64::total_cmp(&a.0, &b.0));
    if sorted.len() > 1 {
        let third = ((sorted.len() - 2) / 3) + 1;
        *sorted[0].1 = Style::Bucket0;
        for i in 1..third {
            *sorted[i].1 = Style::Bucket1;
        }
        for i in sorted.len() - third..sorted.len() - 1 {
            *sorted[i].1 = Style::Bucket3;
        }
        *sorted.last_mut().unwrap().1 = Style::Bucket4;
    }
    cells.iter().map(|c| c.1).collect()
}

fn styles_of_table(times: &[Option<f64>]) -> Vec<Style> {
    let data: Vec<Sample> = times
        .iter()
        .enumerate()
        .map(|(i, t)| sample(&format!("revision-{:03}", i), "f", INTR_SINGL, *t))
        .collect();
    let table = pretty_table(&data);
    match &table[2] {
        Row::Cells(cells) => cells[2..].iter().map(|c| c.style).collect(),
        Row::Separator(_) => unreachable!(),
    }
}

#[test]
fn distinct_items_in_order_of_first_occurrence() {
    let items: Vec<String> = ["b", "a", "b", "", "c", "a", ""].iter().map(|s| s.to_string()).collect();
    assert_eq!(collect_uniq(&items), vec!["b", "a", "", "c"]);
    assert_eq!(collect_uniq(&vec![]), Vec::<String>::new());
    assert_eq!(
        collect_uniq_modes(&vec![COMP_MULTI, INTR_SINGL, COMP_MULTI, INTR_SINGL]),
        vec![COMP_MULTI, INTR_SINGL]
    );
}

#[test]
fn a_table_of_two_revisions() {
    let data = vec![
        sample("compare-1-abcdefghijkl", "sort.hvmc", INTR_SINGL, Some(1.5)),
        sample("compare-1-abcdefghijkl", "sort.hvmc", COMP_MULTI, Some(0.25)),
        sample("compare-1-abcdefghijkl", "tree", INTR_SINGL, None),
        sample("compare-1-abcdefghijkl", "tree", COMP_MULTI, Some(2.0)),
        sample("0123456789abcdef", "sort.hvmc", INTR_SINGL, Some(1.25)),
        sample("0123456789abcdef", "sort.hvmc", COMP_MULTI, Some(0.25)),
        sample("0123456789abcdef", "tree", INTR_SINGL, None),
        sample("0123456789abcdef", "tree", COMP_MULTI, None),
    ];
    assert!(is_printable(&data));
    let table = pretty_table(&data);
    assert_eq!(
        table,
        vec![
            Row::Cells(vec![
                cell(Align::Left, Style::Header, "file", 0),
                cell(Align::Left, Style::Header, "mode", 0),
                cell(Align::Left, Style::Header, "1-abcdefghij", 12),
                cell(Align::Left, Style::Header, "0123456789ab", 12),
            ]),
            Row::Separator('='),
            Row::Cells(vec![
                cell(Align::Left, Style::Neutral, "sort", 0),
                cell(Align::Left, Style::Neutral, "intr-singl", 0),
                cell(Align::Right, Style::Bucket4, "1.500 s", 0),
                cell(Align::Right, Style::Bucket0, "1.250 s", 0),
            ]),
            Row::Cells(vec![
                cell(Align::Left, Style::Neutral, "", 0),
                cell(Align::Left, Style::Neutral, "comp-multi", 0),
                cell(Align::Right, Style::Bucket0, "0.250 s", 0),
                cell(Align::Right, Style::Bucket4, "0.250 s", 0),
            ]),
            Row::Separator('-'),
            Row::Cells(vec![
                cell(Align::Left, Style::Neutral, "tree", 0),
                cell(Align::Left, Style::Neutral, "intr-singl", 0),
                cell(Align::Right, Style::Bucket2, "", 0),
                cell(Align::Right, Style::Bucket2, "", 0),
            ]),
            Row::Cells(vec![
                cell(Align::Left, Style::Neutral, "", 0),
                cell(Align::Left, Style::Neutral, "comp-multi", 0),
                cell(Align::Right, Style::Bucket2, "2.000 s", 0),
                cell(Align::Right, Style::Bucket2, "", 0),
            ]),
        ]
    );
    let spans = pretty_print_data(&data).unwrap();
    assert_eq!(Some(&spans), print_table(&table).as_ref());
    assert_eq!(
        text_of(&spans),
        "file  mode        1-abcdefghij  0123456789ab\n\
         ============================================\n\
         sort  intr-singl       1.500 s       1.250 s\n\
         \x20     comp-multi       0.250 s       0.250 s\n\
         --------------------------------------------\n\
         tree  intr-singl                            \n\
         \x20     comp-multi       2.000 s              \n"
    );
}

#[test]
fn the_styles_of_a_row_are_those_of_its_sorted_times() {
    assert_eq!(styles_of_table(&[Some(1.0)]), vec![Style::Bucket2]);
    assert_eq!(styles_of_table(&[Some(2.0), Some(1.0)]), vec![Style::Bucket4, Style::Bucket0]);
    assert_eq!(
        styles_of_table(&[Some(5.0), Some(1.0), Some(4.0), Some(2.0), Some(3.0)]),
        vec![Style::Bucket4, Style::Bucket0, Style::Bucket3, Style::Bucket1, Style::Bucket2]
    );
    let mut seed: u64 = 11;
    for round in 0..120 {
        let mut times = Vec::new();
        for _ in 0..(round % 13) {
            seed = seed.wrapping_mul(6364136223846793005).wrapping_add(1442695040888963407);
            let pick = (seed >> 33) % 9;
            times.push(match pick {
                0 => None,
                1 => Some(0.0),
                2 => Some(-0.0),
                3 => Some(f64::INFINITY),
                4 => Some(f64::NAN),
                5 => Some(-1.5),
                _ => Some(((seed >> 40) % 4) as f64 / 4.0),
            });
        }
        if times.is_empty() {
            continue;
        }
        assert_eq!(styles_of_table(&times), styles_by_sorting(&times), "{:?}", times);
    }
}

#[test]
fn a_revision_shorter_than_the_header_has_no_table() {
    let data = vec![sample("main", "f", INTR_SINGL, Some(1.0))];
    assert!(!is_printable(&data));
    let data = vec![sample("compare-12345678901", "f", INTR_SINGL, Some(1.0))];
    assert!(!is_printable(&data));
    let data = vec![sample("compare-123456789012", "f", INTR_SINGL, Some(1.0))];
    assert!(is_printable(&data));
}

#[test]
fn a_header_is_cut_between_characters_only() {
    let data = vec![sample("0123456789äb", "f", INTR_SINGL, None)];
    match &pretty_table(&data)[0] {
        Row::Cells(cells) => assert_eq!(cells[2].content, "0123456789ä"),
        _ => unreachable!(),
    }
    let data = vec![sample("01234567890äb", "f", INTR_SINGL, None)];
    assert!(!is_printable(&data));
}

#[test]
fn a_missing_combination_has_no_table() {
    let mut data = vec![
        sample("0123456789ab", "f", INTR_SINGL, Some(1.0)),
        sample("0123456789ab", "g", INTR_SINGL, Some(1.0)),
        sample("0123456789ab", "f", COMP_MULTI, Some(1.0)),
    ];
    assert!(!is_printable(&data));
    data.push(sample("0123456789ab", "g", COMP_MULTI, None));
    assert!(is_printable(&data));
}

#[test]
fn the_first_of_two_samples_of_a_combination_is_shown() {
    let data = vec![
        sample("0123456789ab", "f", INTR_SINGL, Some(1.0)),
        sample("0123456789ab", "f", INTR_SINGL, Some(2.0)),
    ];
    match &pretty_table(&data)[2] {
        Row::Cells(cells) => assert_eq!(cells[2].content, "1.000 s"),
        _ => unreachable!(),
    }
}

#[test]
fn no_data_is_a_header_alone() {
    assert!(is_printable(&vec![]));
    let table = pretty_table(&vec![]);
    assert_eq!(
        table,
        vec![Row::Cells(vec![
            cell(Align::Left, Style::Header, "file", 0),
            cell(Align::Left, Style::Header, "mode", 0),
        ])]
    );
    assert_eq!(text_of(&print_table(&table).unwrap()), "file  mode\n");
}

#[test]
fn cells_are_padded_to_their_column() {
    let table = vec![
        Row::Cells(vec![cell(Align::Left, Style::Header, "ab", 0), cell(Align::Right, Style::Header, "c", 4)]),
        Row::Separator('*'),
        Row::Cells(vec![cell(Align::Right, Style::Bucket1, "x", 0), cell(Align::Left, Style::Bucket3, "wxyz!", 0)]),
    ];
    let spans = print_table(&table).unwrap();
    let span = |style: Style, text: &str| Span { style, text: text.to_owned() };
    assert_eq!(
        spans,
        vec![
            span(Style::Neutral, ""),
            span(Style::Header, "ab"),
            span(Style::Neutral, ""),
            span(Style::Neutral, "      "),
            span(Style::Header, "c"),
            span(Style::Neutral, ""),
            span(Style::Neutral, "\n"),
            span(Style::Neutral, "*********\n"),
            span(Style::Neutral, " "),
            span(Style::Bucket1, "x"),
            span(Style::Neutral, ""),
            span(Style::Neutral, "  "),
            span(Style::Bucket3, "wxyz!"),
            span(Style::Neutral, ""),
            span(Style::Neutral, "\n"),
        ]
    );
    assert_eq!(text_of(&spans), "ab      c\n*********\n x  wxyz!\n");
}

#[test]
fn widths_count_bytes() {
    let table = vec![
        Row::Cells(vec![cell(Align::Left, Style::Neutral, "äö", 0)]),
        Row::Cells(vec![cell(Align::Left, Style::Neutral, "abc", 0)]),
        Row::Separator('-'),
    ];
    assert_eq!(text_of(&print_table(&table).unwrap()), "äö\nabc \n----\n");
}

#[test]
fn a_table_without_cells_has_rules_of_no_width() {
    assert_eq!(print_table(&vec![]), Some(vec![]));
    let table = vec![Row::Separator('='), Row::Separator('-')];
    assert_eq!(text_of(&print_table(&table).unwrap()), "\n\n");
    let table = vec![Row::Cells(vec![]), Row::Separator('-')];
    assert_eq!(text_of(&print_table(&table).unwrap()), "\n\n");
}

#[test]
fn rows_of_other_lengths_are_laid_out_too() {
    let table = vec![
        Row::Separator('='),
        Row::Cells(vec![cell(Align::Left, Style::Neutral, "a", 0), cell(Align::Left, Style::Neutral, "b", 0)]),
        Row::Cells(vec![cell(Align::Left, Style::Neutral, "long", 0)]),
        Row::Cells(vec![
            cell(Align::Right, Style::Neutral, "x", 0),
            cell(Align::Right, Style::Neutral, "y", 3),
            cell(Align::Right, Style::Neutral, "z", 9),
        ]),
    ];
    assert_eq!(text_of(&print_table(&table).unwrap()), "=========\na     b  \nlong\n   x    y  z\n");
}
