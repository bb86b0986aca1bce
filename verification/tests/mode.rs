use hvm_bench::error::Error;
use hvm_bench::mode::Mode;

fn all() -> Vec<Mode> {
    vec![
        Mode { compiled: false, multi: false },
        Mode { compiled: false, multi: true },
        Mode { compiled: true, multi: false },
        Mode { compiled: true, multi: true },
    ]
}

#[test]
fn every_mode_is_a_variant_in_order() {
    assert_eq!(Mode::value_variants(), all());
}

#[test]
fn modes_have_their_canonical_text() {
    let texts: Vec<String> = all().iter().map(|m| m.to_string()).collect();
    assert_eq!(texts, vec!["intr-singl", "intr-multi", "comp-singl", "comp-multi"]);
    let names: Vec<&str> = all().iter().map(|m| m.name()).collect();
    assert_eq!(names, vec!["intr-singl", "intr-multi", "comp-singl", "comp-multi"]);
}

#[test]
fn encoding_round_trips_for_all_four_modes() {
    for mode in all() {
        assert_eq!(Mode::from_str(&mode.to_string()), Ok(mode));
    }
}

#[test]
fn default_mode_is_interpreted_on_one_thread() {
    assert_eq!(Mode::default(), Mode { compiled: false, multi: false });
}

#[test]
fn other_texts_are_no_mode() {
    for text in ["", "comp", "comp-", "-multi", "compmulti", "comp-multi ", " comp-multi", "COMP-MULTI",
        "comp-multi-x", "intr-single", "compiled-multi", "comp_multi"]
    {
        assert_eq!(Mode::from_str(text), Err(Error::InvalidModeEncoding), "{:?}", text);
    }
}
