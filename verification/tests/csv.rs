use hvm_bench::error::Error;
use hvm_bench::mode::Mode;
use hvm_bench::types::{Datum, Stats, TimeReading, TimeUnit};

fn datum(rev: &str, file: &str, compiled: bool, multi: bool, stats: Option<(&str, u64)>) -> Datum {
    Datum {
        rev: rev.to_owned(),
        file: file.to_owned(),
        mode: Mode { compiled, multi },
        stats: stats.map(|(time, rwts)| Stats {
            time: TimeReading { number: time.to_owned(), unit: TimeUnit::Seconds },
            rwts,
        }),
    }
}

fn some_results() -> Vec<Datum> {
    vec![
        datum("v1", "a.hvmc", false, false, Some(("0.01", 100))),
        datum("v1", "a.hvmc", true, true, None),
        datum("v2", "b c.hvmc", false, true, Some(("1.5", 0))),
        datum("", "", true, false, Some(("3", u64::MAX))),
    ]
}

#[test]
fn a_dataset_is_written_line_by_line() {
    assert_eq!(
        Datum::to_csv(&some_results()).unwrap(),
        "rev,file,mode,time,rwts\n\
         v1,a.hvmc,intr-singl,0.01,100\n\
         v1,a.hvmc,comp-multi,,\n\
         v2,b c.hvmc,intr-multi,1.5,0\n\
         ,,comp-singl,3,18446744073709551615\n"
    );
}

#[test]
fn an_empty_dataset_is_the_header() {
    assert_eq!(Datum::to_csv(&vec![]).unwrap(), "rev,file,mode,time,rwts\n");
    assert_eq!(Datum::from_csv("rev,file,mode,time,rwts\n"), Ok(vec![]));
}

#[test]
fn a_dataset_round_trips() {
    let data = some_results();
    assert_eq!(Datum::from_csv(&Datum::to_csv(&data).unwrap()), Ok(data));
}

#[test]
fn a_stored_time_reads_back_as_the_same_number() {
    for time in [0.01f64, 1.5, 3.0, 0.1 + 0.2, 1e-7, 1e21, f64::MAX, f64::MIN_POSITIVE, f64::INFINITY] {
        let text = format!("{}", time);
        let data = vec![datum("r", "f", false, false, Some((&text, 1)))];
        let read = Datum::from_csv(&Datum::to_csv(&data).unwrap()).unwrap();
        let number = read[0].stats.as_ref().unwrap().time.number.parse::<f64>().unwrap();
        assert_eq!(number, time);
        assert_eq!(read, data);
    }
}

#[test]
fn a_time_in_another_unit_has_no_stored_form() {
    let mut data = some_results();
    data[2].stats.as_mut().unwrap().time.unit = TimeUnit::Millis;
    assert_eq!(Datum::to_csv(&data), None);
    assert!(!data[2].in_seconds());
    assert!(data[0].in_seconds());
    assert!(data[1].in_seconds());
}

#[test]
fn the_last_line_may_go_without_its_end() {
    let read = Datum::from_csv("rev,file,mode,time,rwts\nv1,a,intr-singl,2,3").unwrap();
    assert_eq!(read, vec![datum("v1", "a", false, false, Some(("2", 3)))]);
}

#[test]
fn a_carriage_return_before_a_line_feed_belongs_to_the_line_end() {
    let read = Datum::from_csv("rev,file,mode,time,rwts\nv1,a,intr-singl,2,3\r\nv2,a,intr-singl,,\r\n").unwrap();
    assert_eq!(
        read,
        vec![datum("v1", "a", false, false, Some(("2", 3))), datum("v2", "a", false, false, None)]
    );
    assert_eq!(
        Datum::from_csv("rev,file,mode,time,rwts\nv1,a,intr-singl,2,3\r"),
        Err(Error::InvalidDatasetFormat)
    );
}

#[test]
fn a_text_of_another_form_is_no_dataset() {
    for text in [
        "",
        "rev,file,mode,time,rwts",
        "rev,file,mode,time\n",
        " rev,file,mode,time,rwts\n",
        "rev,file,mode,time,rwts\n\n",
        "rev,file,mode,time,rwts\nv1\n",
        "rev,file,mode,time,rwts\nv1,a\n",
        "rev,file,mode,time,rwts\nv1,a,intr-singl\n",
        "rev,file,mode,time,rwts\nv1,a,intr-singl,\n",
        "rev,file,mode,time,rwts\nv1,a,intr-singl,2\n",
        "rev,file,mode,time,rwts\nv1,a,intr-singl,2,3,\n",
        "rev,file,mode,time,rwts\nv1,a,intr-singl,,,\n",
        "rev,file,mode,time,rwts\nv1,a,intr-singl,,3\n",
        "rev,file,mode,time,rwts\nv1,a,intr-singl,2,\n",
        "rev,file,mode,time,rwts\nv1,a,interpreted,2,3\n",
        "rev,file,mode,time,rwts\nv1,a,intr-singl,two,3\n",
        "rev,file,mode,time,rwts\nv1,a,intr-singl,2s,3\n",
        "rev,file,mode,time,rwts\nv1,a,intr-singl, 2,3\n",
        "rev,file,mode,time,rwts\nv1,a,intr-singl,2,three\n",
        "rev,file,mode,time,rwts\nv1,a,intr-singl,2,1_000\n",
        "rev,file,mode,time,rwts\nv1,a,intr-singl,2,-3\n",
        "rev,file,mode,time,rwts\nv1,a,intr-singl,2,18446744073709551616\n",
        "rev,file,mode,time,rwts\nv1,a,intr-singl,2,3\nv2\n",
    ] {
        assert_eq!(Datum::from_csv(text), Err(Error::InvalidDatasetFormat), "{:?}", text);
    }
}

#[test]
fn a_comma_in_a_name_does_not_come_back() {
    let data = vec![datum("a,b", "f", false, false, None)];
    let text = Datum::to_csv(&data).unwrap();
    assert_eq!(text, "rev,file,mode,time,rwts\na,b,f,intr-singl,,\n");
    assert_eq!(Datum::from_csv(&text), Err(Error::InvalidDatasetFormat));
}

/// Reads a dataset with what the standard library offers.
fn read_by_std(csv: &str) -> Option<Vec<Datum>> {
    let csv = csv.strip_prefix("rev,file,mode,time,rwts\n")?;
    csv.lines()
        .map(|line| {
            let mut els = line.split(',');
            let rev = els.next()?.to_owned();
            let file = els.next()?.to_owned();
            let mode = Mode::from_str(els.next()?).ok()?;
            let stats = match els.next()? {
                "" => {
                    if els.next() != Some("") {
                        return None;
                    }
                    None
                },
                time => {
                    time.parse::<f64>().ok()?;
                    Some(Stats {
                        time: TimeReading { number: time.to_owned(), unit: TimeUnit::Seconds },
                        rwts: els.next()?.parse().ok()?,
                    })
                },
            };
            if els.next() != None {
                return None;
            }
            Some(Datum { rev, file, mode, stats })
        })
        .collect()
}

#[test]
fn reading_agrees_with_the_standard_library() {
    let pieces = [
        "rev,file,mode,time,rwts\n", "v1", "a.hvmc", ",", ",,", "\n", "\r\n", "\r", "intr-singl", "comp-multi",
        "comp-", "1.5", "1e3", "inf", "nan", ".", "-", "+7", "12", "1_0", "x", " ", "",
    ];
    let mut seed: u64 = 3;
    let mut next = |below: usize| {
        seed = seed.wrapping_mul(6364136223846793005).wrapping_add(1442695040888963407);
        ((seed >> 33) as usize) % below
    };
    let mut read = 0;
    for round in 0..4000 {
        let mut text = String::new();
        if round % 9 != 0 {
            text.push_str(pieces[0]);
        }
        for _ in 0..next(4) {
            if next(3) > 0 {
                // A line that is likely to be well formed.
                text.push_str(pieces[1 + next(2)]);
                text.push(',');
                text.push_str(pieces[1 + next(2)]);
                text.push(',');
                text.push_str(pieces[8 + next(2)]);
                text.push(',');
                if next(3) > 0 {
                    text.push_str(pieces[11 + next(4)]);
                    text.push(',');
                    text.push_str(pieces[17 + next(2)]);
                } else {
                    text.push(',');
                }
                text.push_str(pieces[5 + next(2)]);
            } else {
                for _ in 0..next(8) {
                    text.push_str(pieces[next(pieces.len())]);
                }
            }
        }
        let wanted = read_by_std(&text);
        if wanted.as_ref().is_some_and(|data| !data.is_empty()) {
            read += 1;
        }
        assert_eq!(Datum::from_csv(&text).ok(), wanted, "{:?}", text);
    }
    assert!(read > 500);
}
