use hvm_bench::bencher::{ancestry, Action, BenchConfig, BenchFile, Bencher, Event, Phase};
use hvm_bench::command::{
    bench_compiled, bench_interpreted, build, compile, run_result, ArtifactKey, Capability, MAX_TIME,
};
use hvm_bench::runner::RunOutcome;
use hvm_bench::error::{Error, Field};
use hvm_bench::mode::Mode;
use hvm_bench::types::{Datum, TimeUnit};

const INTR_SINGL: Mode = Mode { compiled: false, multi: false };
const INTR_MULTI: Mode = Mode { compiled: false, multi: true };
const COMP_SINGL: Mode = Mode { compiled: true, multi: false };
const COMP_MULTI: Mode = Mode { compiled: true, multi: true };

fn file(name: &str) -> BenchFile {
    BenchFile { path: format!("programs/{}", name), name: name.to_owned() }
}

fn config(revs: &[&str], files: &[&str], modes: &[Mode]) -> BenchConfig {
    BenchConfig {
        revs: revs.iter().map(|r| r.to_string()).collect(),
        files: files.iter().map(|f| file(f)).collect(),
        modes: modes.to_vec(),
    }
}

fn ran(output: &str) -> Event {
    Event::Ran { outcome: RunOutcome::Exited(0), output: output.to_owned() }
}

fn runtime(rev: &str) -> ArtifactKey {
    ArtifactKey { rev: rev.to_owned(), file: None }
}

fn binary(rev: &str, file: &str) -> ArtifactKey {
    ArtifactKey { rev: rev.to_owned(), file: Some(file.to_owned()) }
}

fn strings(args: &[&str]) -> Vec<String> {
    args.iter().map(|a| a.to_string()).collect()
}

fn tags(data: &[Datum]) -> Vec<(String, String, Mode)> {
    data.iter().map(|d| (d.rev.clone(), d.file.clone(), d.mode)).collect()
}

fn plan(config: &BenchConfig) -> Vec<(String, String, Mode)> {
    let mut all = Vec::new();
    for rev in &config.revs {
        for file in &config.files {
            for mode in &config.modes {
                all.push((rev.clone(), file.name.clone(), *mode));
            }
        }
    }
    all
}

/// Drives a sweep to its end, answering each action by `answer`.
fn drive(config: BenchConfig, mut answer: impl FnMut(&Action) -> Event) -> (Vec<Datum>, Vec<Action>) {
    let mut bencher = Bencher::new(config);
    let mut actions = Vec::new();
    while !bencher.finished() {
        let action = bencher.action();
        let event = answer(&action);
        actions.push(action);
        bencher = bencher.step(&event).ok().unwrap();
        assert!(actions.len() < 10_000);
    }
    assert_eq!(bencher.action(), Action::Finish);
    (bencher.data().clone(), actions)
}

#[test]
fn the_deadline_is_two_minutes() {
    assert_eq!(MAX_TIME, 120);
}

#[test]
fn two_revisions_one_of_them_without_output() {
    let config = config(&["v1", "v2"], &["a.bench"], &[INTR_SINGL]);
    let events = vec![
        Event::Done,
        Event::Found(true),
        Event::Ancestor(false),
        ran("TIME: 10ms\nRWTS: 100"),
        Event::Done,
        Event::Found(true),
        Event::Ancestor(false),
        ran("nothing to see"),
    ];
    let data = Bencher::new(config).bench_all(&events).unwrap();
    assert_eq!(data.len(), 2);
    assert_eq!(data[0].rev, "v1");
    assert_eq!(data[0].file, "a.bench");
    assert_eq!(data[0].mode, INTR_SINGL);
    let stats = data[0].stats.as_ref().unwrap();
    assert_eq!(stats.rwts, 100);
    assert_eq!(stats.time.unit, TimeUnit::Millis);
    assert_eq!(stats.time.number.parse::<f64>().unwrap() * 1.0e-3, 0.01);
    assert_eq!(data[1].rev, "v2");
    assert_eq!(data[1].file, "a.bench");
    assert_eq!(data[1].mode, INTR_SINGL);
    assert_eq!(data[1].stats, None);
}

#[test]
fn events_that_stop_short_or_go_on_do_not_complete_a_sweep() {
    let all = vec![Event::Done, Event::Found(true), Event::Ancestor(false), ran("TIME: 1s\nRWTS: 1")];
    let sweep = || Bencher::new(config(&["v1"], &["a"], &[INTR_SINGL]));
    assert!(sweep().bench_all(&all).is_some());
    assert_eq!(sweep().bench_all(&all[..3].to_vec()), None);
    assert_eq!(sweep().bench_all(&vec![]), None);
    let mut longer = all.clone();
    longer.push(Event::Done);
    assert_eq!(sweep().bench_all(&longer), None);
    let mut wrong = all.clone();
    wrong[1] = Event::Done;
    assert_eq!(sweep().bench_all(&wrong), None);
}

#[test]
fn a_sweep_of_nothing_is_finished_at_once() {
    for config in [config(&[], &["a"], &[INTR_SINGL]), config(&[], &[], &[])] {
        let bencher = Bencher::new(config);
        assert!(bencher.finished());
        assert_eq!(bencher.action(), Action::Finish);
        assert_eq!(bencher.bench_all(&vec![]), Some(vec![]));
    }
}

#[test]
fn revisions_without_combinations_are_only_checked_out() {
    for config in [config(&["v1", "v2"], &[], &[INTR_SINGL]), config(&["v1", "v2"], &["a"], &[])] {
        let (data, actions) = drive(config, |_| Event::Done);
        assert_eq!(data, vec![]);
        assert_eq!(
            actions,
            vec![Action::Checkout { rev: "v1".to_owned() }, Action::Checkout { rev: "v2".to_owned() }]
        );
    }
}

#[test]
fn a_full_sweep_asks_for_everything_in_order() {
    let config = config(&["v1"], &["a.hvmc"], &[INTR_MULTI, COMP_SINGL]);
    let mut stored: Vec<ArtifactKey> = Vec::new();
    let (data, actions) = drive(config, |action| match action {
        Action::Checkout { .. } => Event::Done,
        Action::Store { key } => {
            stored.push(key.clone());
            Event::Done
        },
        Action::Build { .. } | Action::Compile { .. } => ran("Finished"),
        Action::Find { key } => Event::Found(stored.contains(key)),
        Action::IsAncestor { candidate } => Event::Ancestor(candidate == "0ba064c"),
        Action::Run { .. } => ran("RWTS: 7\nTIME: 2 s"),
        Action::Finish => unreachable!(),
    });
    assert_eq!(
        actions,
        vec![
            Action::Checkout { rev: "v1".to_owned() },
            Action::Find { key: runtime("v1") },
            Action::Build { key: runtime("v1"), args: strings(&["build", "--release"]) },
            Action::Store { key: runtime("v1") },
            Action::IsAncestor { candidate: "0ba064c".to_owned() },
            Action::Run { key: runtime("v1"), args: strings(&["run", "programs/a.hvmc", "-m", "4G", "-s"]) },
            Action::Find { key: runtime("v1") },
            Action::Find { key: binary("v1", "a.hvmc") },
            Action::Compile {
                key: binary("v1", "a.hvmc"),
                path: "programs/a.hvmc".to_owned(),
                args: strings(&["compile"]),
            },
            Action::Store { key: binary("v1", "a.hvmc") },
            Action::IsAncestor { candidate: "9bdbdcb".to_owned() },
            Action::IsAncestor { candidate: "0ba064c".to_owned() },
            Action::Run { key: binary("v1", "a.hvmc"), args: strings(&["_", "-s", "-1", "-m", "4G"]) },
        ]
    );
    assert_eq!(data.len(), 2);
    assert!(data.iter().all(|d| d.stats.as_ref().unwrap().rwts == 7));
}

#[test]
fn a_cached_artifact_is_not_built_again() {
    let config = config(&["v1"], &["a", "b"], &[COMP_SINGL, COMP_MULTI]);
    let mut stored: Vec<ArtifactKey> = Vec::new();
    let mut built: Vec<ArtifactKey> = Vec::new();
    let (data, _) = drive(config, |action| match action {
        Action::Find { key } => Event::Found(stored.contains(key)),
        Action::Build { key, .. } | Action::Compile { key, .. } => {
            built.push(key.clone());
            ran("")
        },
        Action::Store { key } => {
            stored.push(key.clone());
            Event::Done
        },
        Action::IsAncestor { .. } => Event::Ancestor(true),
        Action::Run { .. } => ran("TIME: 1s\nRWTS: 1"),
        _ => Event::Done,
    });
    assert_eq!(built, vec![runtime("v1"), binary("v1", "a"), binary("v1", "b")]);
    assert_eq!(stored, built);
    assert_eq!(data.len(), 4);
    assert!(data.iter().all(|d| d.stats.is_some()));
}

#[test]
fn a_failed_compilation_is_tried_again_for_the_next_mode() {
    let failures = [
        Event::Failed,
        Event::Ran { outcome: RunOutcome::Exited(1), output: "error".to_owned() },
        Event::Ran { outcome: RunOutcome::TimedOut, output: String::new() },
    ];
    for failure in failures {
        let config = config(&["v1"], &["a"], &[COMP_SINGL, COMP_MULTI]);
        let mut stored: Vec<ArtifactKey> = vec![runtime("v1")];
        let mut compilations = 0;
        let (data, _) = drive(config, |action| match action {
            Action::Find { key } => Event::Found(stored.contains(key)),
            Action::Compile { .. } => {
                compilations += 1;
                if compilations == 1 { failure.clone() } else { ran("") }
            },
            Action::Store { key } => {
                stored.push(key.clone());
                Event::Done
            },
            Action::IsAncestor { .. } => Event::Ancestor(true),
            Action::Run { .. } => ran("TIME: 1s\nRWTS: 1"),
            _ => Event::Done,
        });
        assert_eq!(compilations, 2);
        assert_eq!(stored, vec![runtime("v1"), binary("v1", "a")]);
        assert_eq!(data[0].stats, None);
        assert!(data[1].stats.is_some());
    }
}

#[test]
fn an_artifact_that_cannot_be_stored_fails_its_build() {
    let config = config(&["v1", "v2"], &["a"], &[COMP_SINGL, INTR_SINGL]);
    let (data, _) = drive(config, |action| match action {
        Action::Find { .. } => Event::Found(false),
        Action::Build { .. } | Action::Compile { .. } => ran(""),
        Action::Store { key } if key.rev == "v1" && key.file.is_none() => Event::Failed,
        Action::Store { key } if key.file.is_some() => Event::Failed,
        Action::IsAncestor { .. } => Event::Ancestor(true),
        Action::Run { .. } => ran("TIME: 1s\nRWTS: 1"),
        _ => Event::Done,
    });
    let absent: Vec<bool> = data.iter().map(|d| d.stats.is_none()).collect();
    assert_eq!(absent, vec![true, true, true, false]);
}

#[test]
fn every_combination_gets_one_result_whatever_fails() {
    let all_modes = [INTR_SINGL, INTR_MULTI, COMP_SINGL, COMP_MULTI];
    let config = config(&["v1", "v2", "v3"], &["a", "b"], &all_modes);
    let wanted = plan(&config);
    assert_eq!(wanted.len(), 24);
    // Every action in turn fails once; then every seventh, fifth, third and second.
    for failing in 0..200usize {
        let mut count = 0;
        let (data, actions) = drive(config.clone(), |action| {
            count += 1;
            let fails = if failing < 100 { count == failing } else { count % (failing - 98) == 0 };
            match action {
                Action::Find { .. } => Event::Found(!fails),
                Action::IsAncestor { .. } if !fails => Event::Ancestor(count % 2 == 0),
                Action::Build { .. } | Action::Compile { .. } if !fails => ran(""),
                Action::Build { .. } | Action::Compile { .. } if count % 2 == 0 => {
                    Event::Ran { outcome: RunOutcome::Exited(101), output: "error".to_owned() }
                },
                Action::Run { .. } if !fails => match count % 4 {
                    0 => ran("TIME: 1s\nRWTS: 1"),
                    1 => ran("garbage"),
                    2 => Event::Ran { outcome: RunOutcome::TimedOut, output: "TIME: 1s\nRWTS: 1".to_owned() },
                    _ => Event::Ran { outcome: RunOutcome::Exited(1), output: "TIME: 1s\nRWTS: 1".to_owned() },
                },
                _ if fails => Event::Failed,
                _ => Event::Done,
            }
        });
        assert_eq!(tags(&data), wanted, "failing {}", failing);
        assert!(count == actions.len());
    }
}

#[test]
fn a_failed_build_is_tried_again_for_the_next_combination() {
    let config = config(&["v1"], &["a", "b"], &[INTR_SINGL, INTR_MULTI]);
    let mut stored: Vec<ArtifactKey> = Vec::new();
    let mut builds = 0;
    let (data, _) = drive(config, |action| match action {
        Action::Find { key } => Event::Found(stored.contains(key)),
        Action::Build { .. } => {
            builds += 1;
            if builds <= 2 { Event::Ran { outcome: RunOutcome::Exited(101), output: "error".to_owned() } } else { ran("") }
        },
        Action::Store { key } => {
            stored.push(key.clone());
            Event::Done
        },
        Action::IsAncestor { .. } => Event::Ancestor(true),
        Action::Run { .. } => ran("TIME: 1s\nRWTS: 1"),
        _ => Event::Done,
    });
    assert_eq!(builds, 3);
    let absent: Vec<bool> = data.iter().map(|d| d.stats.is_none()).collect();
    assert_eq!(absent, vec![true, true, false, false]);
}

#[test]
fn a_failed_checkout_or_build_costs_the_revision() {
    let config = config(&["v1", "v2"], &["a", "b"], &[INTR_SINGL, COMP_SINGL]);
    for failing in ["checkout", "build"] {
        let (data, actions) = drive(config.clone(), |action| match action {
            Action::Checkout { rev } if rev == "v1" && failing == "checkout" => Event::Failed,
            Action::Build { key, .. } if key.rev == "v1" && failing == "build" => Event::Failed,
            Action::Build { .. } | Action::Compile { .. } => ran(""),
            Action::Find { .. } => Event::Found(false),
            Action::IsAncestor { .. } => Event::Ancestor(true),
            Action::Run { .. } => ran("TIME: 1s\nRWTS: 1"),
            _ => Event::Done,
        });
        assert_eq!(tags(&data), plan(&config));
        assert!(data[..4].iter().all(|d| d.rev == "v1" && d.stats.is_none()));
        assert!(data[4..].iter().all(|d| d.rev == "v2" && d.stats.is_some()));
        assert!(!actions.iter().any(|a| matches!(a, Action::Run { key, .. } if key.rev == "v1")));
    }
}

#[test]
fn a_failed_query_or_run_costs_one_combination() {
    let config = config(&["v1"], &["a"], &[COMP_SINGL, INTR_SINGL, COMP_MULTI]);
    for failing in 1..=3 {
        let mut queries = 0;
        let (data, _) = drive(config.clone(), |action| match action {
            Action::Find { .. } => Event::Found(true),
            Action::IsAncestor { .. } => {
                queries += 1;
                if queries == failing { Event::Failed } else { Event::Ancestor(true) }
            },
            Action::Run { .. } => ran("TIME: 1s\nRWTS: 1"),
            _ => Event::Done,
        });
        let absent: Vec<bool> = data.iter().map(|d| d.stats.is_none()).collect();
        assert_eq!(absent, vec![failing <= 2, failing == 3, false], "failing {}", failing);
    }
    let (data, _) = drive(config, |action| match action {
        Action::Find { .. } => Event::Found(true),
        Action::IsAncestor { .. } => Event::Ancestor(true),
        Action::Run { .. } => Event::Failed,
        _ => Event::Done,
    });
    assert!(data.iter().all(|d| d.stats.is_none()));
}

#[test]
fn an_event_that_does_not_fit_is_refused() {
    let bencher = Bencher::new(config(&["v1"], &["a"], &[INTR_SINGL]));
    assert!(bencher.accepts(&Event::Done));
    assert!(bencher.accepts(&Event::Failed));
    for event in [Event::Found(true), Event::Ancestor(true), ran("")] {
        assert!(!bencher.accepts(&event));
    }
    let bencher = bencher.step(&Event::Found(true)).err().unwrap();
    assert_eq!(bencher.action(), Action::Checkout { rev: "v1".to_owned() });
    assert_eq!(bencher.data(), &vec![]);
    let bencher = bencher.step(&Event::Done).ok().unwrap();
    assert_eq!(bencher.action(), Action::Find { key: runtime("v1") });
    assert!(!bencher.accepts(&Event::Failed));
    assert!(!bencher.accepts(&Event::Done));
    let bencher = bencher.step(&Event::Failed).err().unwrap();
    let bencher = bencher.step(&Event::Found(true)).ok().unwrap();
    let bencher = bencher.step(&Event::Ancestor(true)).ok().unwrap();
    assert!(!bencher.accepts(&Event::Done));
    let bencher = bencher.step(&ran("")).ok().unwrap();
    assert!(bencher.finished());
    for event in [Event::Done, Event::Failed, Event::Found(true), Event::Ancestor(true), ran("")] {
        assert!(!bencher.accepts(&event));
    }
    assert!(bencher.step(&Event::Done).is_err());
}

#[test]
fn arguments_of_an_interpreted_run() {
    assert_eq!(bench_interpreted("a.hvmc", false, false), strings(&["run", "a.hvmc", "-1", "-s"]));
    assert_eq!(bench_interpreted("a.hvmc", true, false), strings(&["run", "a.hvmc", "-s"]));
    assert_eq!(bench_interpreted("a.hvmc", false, true), strings(&["run", "a.hvmc", "-m", "4G", "-1", "-s"]));
    assert_eq!(bench_interpreted("a.hvmc", true, true), strings(&["run", "a.hvmc", "-m", "4G", "-s"]));
}

#[test]
fn arguments_of_a_compiled_binary() {
    assert_eq!(bench_compiled(false, false, false), strings(&["-s"]));
    assert_eq!(bench_compiled(true, false, false), strings(&["-s", "-1"]));
    assert_eq!(bench_compiled(false, true, false), strings(&["_", "-s"]));
    assert_eq!(bench_compiled(false, false, true), strings(&["-s", "-m", "4G"]));
    assert_eq!(bench_compiled(true, true, true), strings(&["_", "-s", "-1", "-m", "4G"]));
}

#[test]
fn the_gates_decide_the_arguments() {
    let run_of = |mode: Mode, refactored: bool, limited: bool| {
        let (_, actions) = drive(config(&["v1"], &["a"], &[mode]), |action| match action {
            Action::Find { .. } => Event::Found(true),
            Action::IsAncestor { candidate } if candidate == "9bdbdcb" => Event::Ancestor(refactored),
            Action::IsAncestor { candidate } if candidate == "0ba064c" => Event::Ancestor(limited),
            Action::Run { .. } => ran(""),
            _ => Event::Done,
        });
        actions.last().unwrap().clone()
    };
    assert_eq!(
        run_of(INTR_SINGL, false, false),
        Action::Run { key: runtime("v1"), args: strings(&["run", "programs/a", "-1", "-s"]) }
    );
    assert_eq!(
        run_of(INTR_MULTI, true, true),
        Action::Run { key: runtime("v1"), args: strings(&["run", "programs/a", "-m", "4G", "-s"]) }
    );
    assert_eq!(
        run_of(COMP_SINGL, false, false),
        Action::Run { key: binary("v1", "a"), args: strings(&["_", "-s", "-1"]) }
    );
    assert_eq!(
        run_of(COMP_SINGL, true, true),
        Action::Run { key: binary("v1", "a"), args: strings(&["-s", "-1", "-m", "4G"]) }
    );
    assert_eq!(
        run_of(COMP_MULTI, true, true),
        Action::Run { key: binary("v1", "a"), args: strings(&["-s", "-m", "4G"]) }
    );
    assert_eq!(
        run_of(COMP_MULTI, false, true),
        Action::Run { key: binary("v1", "a"), args: strings(&["_", "-s", "-m", "4G"]) }
    );
}

#[test]
fn what_a_run_amounts_to() {
    let stats = run_result(RunOutcome::Exited(0), "TIME: 3s\nRWTS: 4").unwrap();
    assert_eq!(stats.rwts, 4);
    assert_eq!(run_result(RunOutcome::Exited(0), "RWTS: 4"), Err(Error::MissingField(Field::Time)));
    assert_eq!(run_result(RunOutcome::Exited(0), "TIME: 3s"), Err(Error::MissingField(Field::Rwts)));
    assert_eq!(run_result(RunOutcome::TimedOut, "TIME: 3s\nRWTS: 4"), Err(Error::ProcessTimedOut));
    assert_eq!(run_result(RunOutcome::TimedOut, ""), Err(Error::ProcessTimedOut));
    assert_eq!(
        run_result(RunOutcome::Exited(2), "TIME: 3s\nRWTS: 4"),
        Err(Error::ProcessNonZeroExit("TIME: 3s\nRWTS: 4".to_owned()))
    );
    assert_eq!(run_result(RunOutcome::Exited(-1), "oops"), Err(Error::ProcessNonZeroExit("oops".to_owned())));
}

#[test]
fn the_failure_of_each_phase() {
    assert_eq!(Phase::Checkout.failure(), Some(Error::VcsCheckoutFailed));
    assert_eq!(Phase::BuildRuntime.failure(), Some(Error::BuildFailed));
    assert_eq!(Phase::StoreRuntime.failure(), Some(Error::BuildFailed));
    assert_eq!(Phase::CompileBinary.failure(), Some(Error::CompileFailed));
    assert_eq!(Phase::StoreBinary.failure(), Some(Error::CompileFailed));
    assert_eq!(Phase::AskPlaceholder.failure(), Some(Error::VcsQueryFailed));
    assert_eq!(Phase::AskMemory { placeholder: true }.failure(), Some(Error::VcsQueryFailed));
    assert_eq!(Phase::FindRuntime.failure(), None);
    assert_eq!(Phase::FindBinary.failure(), None);
    assert_eq!(Phase::Run { placeholder: false, memory: false }.failure(), None);
    assert_eq!(Phase::Finished.failure(), None);
}

#[test]
fn init_fills_in_what_is_left_open() {
    let found = vec![file("b.hvmc"), file("notes.txt"), file("a.hvmc"), file(".hvmc"), file("c.hvmc.bak")];
    let listing = "compare-2-b\nv1.0\ncompare-10-c\ncompare-1-a\n";
    let empty = Bencher::new(config(&[], &[], &[]));
    assert!(empty.needs_files());
    assert!(empty.needs_revisions());
    let filled = empty.init(&found, listing).unwrap();
    assert_eq!(filled.config().revs, vec!["compare-1-a", "compare-2-b", "compare-10-c"]);
    assert_eq!(filled.config().files, vec![file("b.hvmc"), file("a.hvmc")]);
    assert_eq!(filled.config().modes, vec![INTR_SINGL, INTR_MULTI, COMP_SINGL, COMP_MULTI]);
    assert_eq!(filled.action(), Action::Checkout { rev: "compare-1-a".to_owned() });
    assert!(!filled.needs_files());
    assert!(!filled.needs_revisions());
}

#[test]
fn init_keeps_what_is_named() {
    let given = config(&["main"], &["x.txt"], &[COMP_MULTI]);
    let kept = Bencher::new(given.clone()).init(&vec![file("a.hvmc")], "compare-1-a\ncompare-oops\n").unwrap();
    assert_eq!(kept.config(), &given);
}

#[test]
fn init_fails_on_a_tag_without_a_number() {
    let named = Bencher::new(config(&[], &["x"], &[COMP_MULTI]));
    assert!(named.init(&vec![], "compare-1-a\ncompare-oops\n").is_none());
}

#[test]
fn init_starts_the_sweep_anew() {
    let bencher = Bencher::new(config(&["v1"], &["a"], &[INTR_SINGL]));
    let bencher = bencher.step(&Event::Failed).ok().unwrap();
    assert!(bencher.finished());
    assert_eq!(bencher.data().len(), 1);
    let bencher = bencher.init(&vec![], "").unwrap();
    assert!(!bencher.finished());
    assert_eq!(bencher.data().len(), 0);
    assert_eq!(bencher.action(), Action::Checkout { rev: "v1".to_owned() });
}

#[test]
fn the_cache_names_artifacts_by_their_stem() {
    assert_eq!(runtime("v1").name(), "hvmc");
    for (file, name) in [("a.hvmc", "a"), ("a.b.hvmc", "a.b"), ("a", "a"), (".hidden", ".hidden"), ("a.", "a"),
        ("..x", "."), (".a.b", ".a"), ("", ""), ("ä.ö", "ä"), ("hvmc.hvmc", "hvmc")]
    {
        assert_eq!(binary("v1", file).name(), name, "{:?}", file);
        if !file.is_empty() {
            let mut path = std::path::Path::new("bins").join("v1").join(file);
            path.set_extension("");
            assert_eq!(path, std::path::Path::new("bins").join("v1").join(name), "{:?}", file);
        }
    }
}

#[test]
fn capabilities_and_the_revisions_that_introduced_them() {
    assert_eq!(Capability::MemoryLimit.introduced_at(), "0ba064c");
    assert_eq!(Capability::PointerRefactor.introduced_at(), "9bdbdcb");
}

#[test]
fn the_combination_at_work() {
    let at = |file: &str| Some(Datum { rev: "v1".to_owned(), file: file.to_owned(), mode: COMP_MULTI, stats: None });
    let bencher = Bencher::new(config(&["v1"], &["a", "b"], &[COMP_MULTI]));
    assert_eq!(bencher.combination(), None);
    let bencher = bencher.step(&Event::Done).ok().unwrap();
    assert_eq!(bencher.combination(), at("a"));
    let bencher = bencher.step(&Event::Found(false)).ok().unwrap();
    assert_eq!(bencher.combination(), at("a"));
    let bencher = bencher.step(&ran("")).ok().unwrap();
    assert_eq!(bencher.combination(), at("a"));
    let bencher = bencher.step(&Event::Done).ok().unwrap();
    assert_eq!(bencher.combination(), at("a"));
    let bencher = bencher.step(&Event::Found(true)).ok().unwrap();
    assert_eq!(bencher.combination(), at("a"));
    let bencher = bencher.step(&Event::Failed).ok().unwrap();
    assert_eq!(bencher.combination(), at("b"));
    let bencher = bencher.step(&Event::Found(false)).ok().unwrap();
    let bencher = bencher.step(&Event::Failed).ok().unwrap();
    assert_eq!(bencher.combination(), None);
    assert!(bencher.finished());
}

#[test]
fn the_arguments_of_a_build_and_of_a_compilation() {
    assert_eq!(build(), strings(&["build", "--release"]));
    assert_eq!(compile(), strings(&["compile"]));
}

#[test]
fn a_sweep_ends_within_its_bound() {
    let all_modes = [INTR_SINGL, INTR_MULTI, COMP_SINGL, COMP_MULTI];
    for (revs, files) in [(0, 0), (1, 0), (3, 1), (2, 3)] {
        let names: Vec<String> = (0..3).map(|i| format!("n{}", i)).collect();
        let names: Vec<&str> = names.iter().map(|n| n.as_str()).collect();
        let config = config(&names[..revs], &names[..files], &all_modes);
        let (data, actions) = drive(config, |action| match action {
            Action::Find { .. } => Event::Found(false),
            Action::Build { .. } | Action::Compile { .. } => ran(""),
            Action::IsAncestor { .. } => Event::Ancestor(true),
            Action::Run { .. } => ran("TIME: 1s\nRWTS: 1"),
            _ => Event::Done,
        });
        assert_eq!(data.len(), revs * files * 4);
        assert!(actions.len() <= 11 * data.len() + 11 * revs + 10);
    }
}

#[test]
fn the_single_thread_flag_goes_by_the_mode() {
    for mode in [INTR_SINGL, INTR_MULTI, COMP_SINGL, COMP_MULTI] {
        let (_, actions) = drive(config(&["v1"], &["a"], &[mode]), |action| match action {
            Action::Find { .. } => Event::Found(true),
            Action::IsAncestor { .. } => Event::Ancestor(true),
            Action::Run { .. } => ran(""),
            _ => Event::Done,
        });
        match actions.last().unwrap() {
            Action::Run { args, .. } => assert_eq!(args.contains(&"-1".to_owned()), !mode.multi, "{:?}", mode),
            other => panic!("{:?}", other),
        }
    }
}

#[test]
fn what_the_exit_code_of_an_ancestry_query_says() {
    assert_eq!(ancestry(Some(0)), Event::Ancestor(true));
    assert_eq!(ancestry(Some(1)), Event::Ancestor(false));
    for code in [Some(2), Some(128), Some(-1), Some(i32::MAX), Some(i32::MIN), None] {
        assert_eq!(ancestry(code), Event::Failed, "{:?}", code);
    }
}
