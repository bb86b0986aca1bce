use hvm_bench::error::{Error, Field};
use hvm_bench::metrics::{parse_output, parse_rwts, parse_time, split_unit, stats_from_fields, time_from_number};
use hvm_bench::types::TimeUnit;

fn seconds(text: &str) -> f64 {
    let reading = parse_time(text).unwrap();
    let scale = match reading.unit {
        TimeUnit::Micros => 1.0e-6,
        TimeUnit::Millis => 1.0e-3,
        TimeUnit::Seconds => 1.0,
    };
    reading.number.parse::<f64>().unwrap() * scale
}

#[test]
fn time_in_microseconds() {
    let reading = parse_time("1500000µs").unwrap();
    assert_eq!(reading.number, "1500000");
    assert_eq!(reading.unit, TimeUnit::Micros);
    assert_eq!(seconds("1500000µs"), 1.5);
}

#[test]
fn time_in_milliseconds() {
    let reading = parse_time("250ms").unwrap();
    assert_eq!(reading.number, "250");
    assert_eq!(reading.unit, TimeUnit::Millis);
    assert_eq!(seconds("250ms"), 0.25);
}

#[test]
fn time_in_seconds() {
    let reading = parse_time("3s").unwrap();
    assert_eq!(reading.number, "3");
    assert_eq!(reading.unit, TimeUnit::Seconds);
    assert_eq!(seconds("3s"), 3.0);
}

#[test]
fn time_without_unit_is_malformed() {
    assert_eq!(parse_time("1500"), Err(Error::MalformedField(Field::Time)));
    assert_eq!(parse_time("1.5"), Err(Error::MalformedField(Field::Time)));
    assert_eq!(parse_time(""), Err(Error::MalformedField(Field::Time)));
    assert_eq!(parse_time("3 sec"), Err(Error::MalformedField(Field::Time)));
}

#[test]
fn white_space_around_the_number_is_dropped() {
    let reading = parse_time(" \t0.123 s").unwrap();
    assert_eq!(reading.number, "0.123");
    assert_eq!(reading.unit, TimeUnit::Seconds);
    assert_eq!(seconds("0.123 s"), 0.123);
    let reading = parse_time("7\u{a0}ms").unwrap();
    assert_eq!(reading.number, "7");
}

#[test]
fn white_space_within_the_number_is_malformed() {
    assert_eq!(parse_time("1 5s"), Err(Error::MalformedField(Field::Time)));
    assert_eq!(parse_time("5s "), Err(Error::MalformedField(Field::Time)));
}

#[test]
fn every_floating_point_literal_is_a_number() {
    for text in ["1.5s", "1.s", ".5s", "+2s", "-2s", "1e3s", "1E3s", "1.5e-3s", "2e+7s", "infs", "-INFs",
        "infinitys", "NaNs", "007s"]
    {
        let reading = parse_time(text).unwrap();
        assert_eq!(reading.unit, TimeUnit::Seconds, "{:?}", text);
        assert_eq!(reading.number, text[..text.len() - 1], "{:?}", text);
        assert!(reading.number.parse::<f64>().is_ok(), "{:?}", text);
    }
}

#[test]
fn what_is_no_literal_is_malformed() {
    for text in ["s", ".s", "es", "1es", "e5s", "1e+s", "1..2s", "1.2.3s", "0x10s", "1_000s", "++1s", "1e5.5s",
        "infinits", "nans s", "1,5s", "abcs", "+s", "1e5e5s"]
    {
        assert_eq!(parse_time(text), Err(Error::MalformedField(Field::Time)), "{:?}", text);
        assert!(text[..text.len() - 1].trim().parse::<f64>().is_err(), "{:?}", text);
    }
}

#[test]
fn the_longest_marker_wins() {
    assert_eq!(parse_time("5µs").unwrap().unit, TimeUnit::Micros);
    assert_eq!(parse_time("5ms").unwrap().unit, TimeUnit::Millis);
    assert_eq!(parse_time("5s").unwrap().unit, TimeUnit::Seconds);
    assert_eq!(parse_time("5us"), Err(Error::MalformedField(Field::Time)));
}

#[test]
fn count_with_separators() {
    assert_eq!(parse_rwts("1_234_567"), Ok(1234567));
}

#[test]
fn count_with_letter_is_malformed() {
    assert_eq!(parse_rwts("12a"), Err(Error::MalformedField(Field::Rwts)));
}

#[test]
fn counts_at_the_edges() {
    assert_eq!(parse_rwts("0"), Ok(0));
    assert_eq!(parse_rwts("007"), Ok(7));
    assert_eq!(parse_rwts("_1_"), Ok(1));
    assert_eq!(parse_rwts("18446744073709551615"), Ok(u64::MAX));
    assert_eq!(parse_rwts("18_446_744_073_709_551_615"), Ok(u64::MAX));
    for text in ["", "_", "+", "-1", "1.0", " 1", " 7", "1 ", "18446744073709551616", "99999999999999999999999"] {
        assert_eq!(parse_rwts(text), Err(Error::MalformedField(Field::Rwts)), "{:?}", text);
        assert!(text.replace('_', "").parse::<u64>().is_err(), "{:?}", text);
    }
    for text in ["+5", "+0", "_+5", "+_5", "+18446744073709551615"] {
        assert_eq!(parse_rwts(text), Err(Error::MalformedField(Field::Rwts)), "{:?}", text);
    }
}

#[test]
fn fields_are_judged_time_first() {
    assert_eq!(stats_from_fields(None, None), Err(Error::MissingField(Field::Time)));
    assert_eq!(stats_from_fields(None, Some("1")), Err(Error::MissingField(Field::Time)));
    assert_eq!(stats_from_fields(Some("x"), None), Err(Error::MalformedField(Field::Time)));
    assert_eq!(stats_from_fields(Some("1s"), None), Err(Error::MissingField(Field::Rwts)));
    assert_eq!(stats_from_fields(Some("1s"), Some("x")), Err(Error::MalformedField(Field::Rwts)));
    let stats = stats_from_fields(Some("1s"), Some("2")).unwrap();
    assert_eq!(stats.time.number, "1");
    assert_eq!(stats.time.unit, TimeUnit::Seconds);
    assert_eq!(stats.rwts, 2);
}

#[test]
fn output_with_both_fields() {
    let stats = parse_output("TIME: 10ms\nRWTS: 100").unwrap();
    assert_eq!(stats.time.number, "10");
    assert_eq!(stats.time.unit, TimeUnit::Millis);
    assert_eq!(stats.rwts, 100);
}

#[test]
fn output_among_other_lines() {
    let stats = parse_output("warming up\nRWTS  :  1_000\nnoise\nTIME :0.250 s\ndone\n").unwrap();
    assert_eq!(stats.time.number, "0.250");
    assert_eq!(stats.time.unit, TimeUnit::Seconds);
    assert_eq!(stats.rwts, 1000);
}

#[test]
fn the_first_match_of_a_field_wins() {
    let stats = parse_output("TIME: 1s\nTIME: 2s\nRWTS: 3\nRWTS: 4\n").unwrap();
    assert_eq!(stats.time.number, "1");
    assert_eq!(stats.rwts, 3);
}

#[test]
fn output_without_a_field_misses_it() {
    assert_eq!(parse_output(""), Err(Error::MissingField(Field::Time)));
    assert_eq!(parse_output("RWTS: 100"), Err(Error::MissingField(Field::Time)));
    assert_eq!(parse_output("TIME: 10ms"), Err(Error::MissingField(Field::Rwts)));
    assert_eq!(parse_output("TIME:\nRWTS: 100"), Err(Error::MissingField(Field::Time)));
    assert_eq!(parse_output("time: 10ms\nrwts: 100"), Err(Error::MissingField(Field::Time)));
}

#[test]
fn output_with_a_bad_value_is_malformed() {
    assert_eq!(parse_output("TIME: 10\nRWTS: 100"), Err(Error::MalformedField(Field::Time)));
    assert_eq!(parse_output("TIME: fast s\nRWTS: 100"), Err(Error::MalformedField(Field::Time)));
    assert_eq!(parse_output("TIME: 10ms\nRWTS: many"), Err(Error::MalformedField(Field::Rwts)));
    assert_eq!(parse_output("TIME: 10ms\nRWTS: 100 rewrites"), Err(Error::MalformedField(Field::Rwts)));
}

#[test]
fn numbers_are_those_that_the_standard_library_reads() {
    let letters = ['0', '7', '.', 'e', 'E', '+', '-', 'i', 'n', 'f', 'a', 'N', 't', 'y', '_', ' ', 'x'];
    let mut texts = vec![String::new()];
    let mut from = 0;
    for _ in 0..4 {
        let upto = texts.len();
        for i in from..upto {
            for c in letters {
                let mut longer = texts[i].clone();
                longer.push(c);
                texts.push(longer);
            }
        }
        from = upto;
    }
    for word in ["infinity", "Infinity", "+INFINITY", "-infinity", "infinit", "infinityy", "1.5e-10", "1.5e+10",
        "123456789012345678901234567890.5", "1e400", "1e-400", "0.1e1.0", "١٢٣", "1\u{660}", "１"]
    {
        texts.push(word.to_owned());
    }
    let mut numbers = 0;
    for text in &texts {
        let wanted = text.trim().parse::<f64>().is_ok();
        let timed = format!("{}s", text);
        let found = parse_time(&timed);
        assert_eq!(found.is_ok(), wanted, "{:?}", text);
        if let Ok(reading) = found {
            assert_eq!(reading.number, text.trim());
            numbers += 1;
        }
    }
    assert!(texts.len() > 80_000);
    assert!(numbers > 300);
}

#[test]
fn counts_are_the_unsigned_numbers_that_the_standard_library_reads() {
    let letters = ['0', '9', '_', '+', '-', ' ', 'a'];
    let mut texts = vec![String::new()];
    let mut from = 0;
    for _ in 0..5 {
        let upto = texts.len();
        for i in from..upto {
            for c in letters {
                let mut longer = texts[i].clone();
                longer.push(c);
                texts.push(longer);
            }
        }
        from = upto;
    }
    for text in &texts {
        let digits = text.replace('_', "");
        let wanted = if digits.starts_with('+') { None } else { digits.parse::<u64>().ok() };
        assert_eq!(parse_rwts(text).ok(), wanted, "{:?}", text);
    }
    for n in [0u64, 9, 10, 99, 100, 12345, u64::MAX - 1, u64::MAX] {
        assert_eq!(parse_rwts(&n.to_string()), Ok(n));
    }
    for n in [u64::MAX as u128 + 1, u64::MAX as u128 * 10, u128::MAX] {
        assert_eq!(parse_rwts(&n.to_string()), Err(Error::MalformedField(Field::Rwts)));
    }
}

#[test]
fn white_space_is_what_the_standard_library_trims() {
    for code in 0..0x3100u32 {
        if let Some(c) = char::from_u32(code) {
            let text = format!("{}1{}s", c, c);
            let wanted = format!("{}1{}", c, c).trim().parse::<f64>().is_ok();
            assert_eq!(parse_time(&text).is_ok(), wanted, "{:?}", c);
        }
    }
}

#[test]
fn a_time_text_parts_into_number_and_unit() {
    assert_eq!(split_unit("250ms"), Some(("250".to_owned(), TimeUnit::Millis)));
    assert_eq!(split_unit("1500000µs"), Some(("1500000".to_owned(), TimeUnit::Micros)));
    assert_eq!(split_unit("3s"), Some(("3".to_owned(), TimeUnit::Seconds)));
    assert_eq!(split_unit(" 0.5 s"), Some((" 0.5 ".to_owned(), TimeUnit::Seconds)));
    assert_eq!(split_unit("s"), Some((String::new(), TimeUnit::Seconds)));
    assert_eq!(split_unit("ms"), Some((String::new(), TimeUnit::Millis)));
    assert_eq!(split_unit("xs"), Some(("x".to_owned(), TimeUnit::Seconds)));
    for text in ["", "250", "250m", "250 ", "250S", "s250"] {
        assert_eq!(split_unit(text), None, "{:?}", text);
    }
}

#[test]
fn a_number_is_taken_as_it_stands() {
    let reading = time_from_number("250", TimeUnit::Millis).unwrap();
    assert_eq!(reading.number, "250");
    assert_eq!(reading.unit, TimeUnit::Millis);
    assert_eq!(time_from_number("1.5e3", TimeUnit::Micros).unwrap().number, "1.5e3");
    for text in ["", " 250", "250 ", "2 50", "x"] {
        assert_eq!(time_from_number(text, TimeUnit::Seconds), Err(Error::MalformedField(Field::Time)), "{:?}", text);
    }
}

#[test]
fn a_count_with_a_sign_in_the_output_is_malformed() {
    assert_eq!(parse_output("TIME: 1s\nRWTS: +5"), Err(Error::MalformedField(Field::Rwts)));
    assert_eq!(parse_output("TIME: 1s\nRWTS: -5"), Err(Error::MalformedField(Field::Rwts)));
}
