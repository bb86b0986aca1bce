use hvm_bench::reporter::Reporter;

#[test]
fn a_message_is_a_line() {
    let mut reporter = Reporter::default();
    assert_eq!(reporter.message("hello"), "hello\n");
    assert_eq!(reporter.message(""), "\n");
    assert_eq!(reporter, Reporter::default());
}

#[test]
fn a_step_without_output_stays_on_one_line() {
    let mut reporter = Reporter::default();
    assert_eq!(reporter.report("building"), "building...");
    assert_eq!(reporter.conclude("1.234s"), " 1.234s\n");
    assert_eq!(reporter, Reporter::default());
}

#[test]
fn nested_steps_are_indented() {
    let mut reporter = Reporter::default();
    let mut text = String::new();
    text += &reporter.report("rev 0/2: v1");
    text += &reporter.report("file 0/1: a");
    text += &reporter.report("intr-singl");
    text += &reporter.message("timeout");
    text += &reporter.conclude("missing time in hvmc output");
    text += &reporter.report("comp-multi");
    text += &reporter.conclude("2.000s");
    text += &reporter.conclude("3.000s");
    text += &reporter.conclude("4.000s");
    text += &reporter.message("done");
    assert_eq!(
        text,
        "rev 0/2: v1...\n\
         \x20 file 0/1: a...\n\
         \x20   intr-singl...\n\
         \x20     timeout\n\
         \x20   ... missing time in hvmc output\n\
         \x20   comp-multi... 2.000s\n\
         \x20 ... 3.000s\n\
         ... 4.000s\n\
         done\n"
    );
    assert_eq!(reporter, Reporter::default());
}

#[test]
fn a_message_closes_the_open_line() {
    let mut reporter = Reporter::default();
    assert_eq!(reporter.report("a"), "a...");
    assert_eq!(reporter.message("m"), "\n  m\n");
    assert_eq!(reporter.message("n"), "  n\n");
    assert_eq!(reporter.conclude("ok"), "... ok\n");
}

#[test]
fn closing_without_an_open_step_changes_nothing() {
    let mut reporter = Reporter::default();
    assert_eq!(reporter.conclude("x"), "... x\n");
    assert_eq!(reporter, Reporter::default());
    assert_eq!(reporter.report("a"), "a...");
    assert_eq!(reporter.conclude("b"), " b\n");
    assert_eq!(reporter.conclude("c"), "... c\n");
    assert_eq!(reporter.message("d"), "d\n");
}
