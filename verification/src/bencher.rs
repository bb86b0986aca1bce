//! The sweep over revisions, files and modes: what to do next, and what to
//! record of what happened.
//!
//! A [`Bencher`] does no work itself. It names the next [`Action`]; the caller
//! carries it out and reports an [`Event`]; the bencher takes the event in and
//! moves on. However the actions end, a finished sweep holds one result for
//! every combination of revision, file and mode, in that order.

use vstd::prelude::*;
use crate::command::{
    bench_compiled, bench_interpreted, build, compile, run_result, ArtifactKey, Capability, KeyView,
};
use crate::discover::{
    candidates, discover_revisions, has_input_extension, is_input_name, order_key, ordered,
};
use crate::error::Error;
use crate::mode::Mode;
use crate::runner::RunOutcome;
use crate::sweep::{
    action_of, after_runtime, at_checkout, binary_key, completes, datum_at, file_part, fits, give_up_rev,
    in_combination, in_phase, inputs, lemma_finished_sweep_is_full, lemma_give_up_is_wf, lemma_next_is_wf,
    lemma_record_is_wf, lemma_replay_is_wf, lemma_replay_stays_refused, lemma_start_is_wf, next, next_rev,
    plan, record, replay, rev_part, runtime_key, start, tags, wf,
};
use crate::text::texts;
use crate::types::{stats_content, views, Datum, DatumView, Stats};

verus! {

/// An input file: where it lies, and the name under which its results go.
#[derive(Debug, Clone, PartialEq, Eq)]
pub struct BenchFile {
    pub path: String,
    pub name: String,
}

/// What to sweep.
#[derive(Debug, Clone, PartialEq, Eq)]
pub struct BenchConfig {
    pub revs: Vec<String>,
    pub files: Vec<BenchFile>,
    pub modes: Vec<Mode>,
}

/// What the caller is asked to do.
#[derive(Debug, Clone, PartialEq, Eq)]
pub enum Action {
    /// Check the revision out in the working tree.
    Checkout { rev: String },
    /// Say whether the cache holds the artifact.
    Find { key: ArtifactKey },
    /// Build the runtime of the checked-out revision: run the build tool in
    /// the working tree with these arguments, under the deadline.
    Build { key: ArtifactKey, args: Vec<String> },
    /// Compile the input at `path`: run the runtime of the revision with
    /// these arguments and then the input, under the deadline.
    Compile { key: ArtifactKey, path: String, args: Vec<String> },
    /// Move what was built or compiled into the cache, as the artifact.
    Store { key: ArtifactKey },
    /// Say whether `candidate` is an ancestor of the checked-out revision.
    IsAncestor { candidate: String },
    /// Run the artifact with these arguments, under the deadline.
    Run { key: ArtifactKey, args: Vec<String> },
    /// Nothing: the sweep is over.
    Finish,
}

/// What the caller reports of an action.
#[derive(Debug, Clone, PartialEq, Eq)]
pub enum Event {
    /// The action could not be carried out.
    Failed,
    /// The revision was checked out, or the artifact was stored.
    Done,
    /// Whether the cache holds the artifact.
    Found(bool),
    /// Whether the candidate is an ancestor.
    Ancestor(bool),
    /// The process ran; `output` is what it wrote until it ended.
    Ran { outcome: RunOutcome, output: String },
}

/// Where a sweep stands within the work on one revision and combination.
#[derive(Debug, Clone, Copy, PartialEq, Eq, Structural)]
pub enum Phase {
    /// The revision is to be checked out.
    Checkout,
    /// The runtime of the revision is looked up in the cache.
    FindRuntime,
    /// The runtime of the revision is to be built.
    BuildRuntime,
    /// The runtime that was built is to be stored in the cache.
    StoreRuntime,
    /// The binary of the file is looked up in the cache.
    FindBinary,
    /// The binary of the file is to be compiled.
    CompileBinary,
    /// The binary that was compiled is to be stored in the cache.
    StoreBinary,
    /// It is asked whether a compiled binary still takes the placeholder.
    AskPlaceholder,
    /// It is asked whether the target takes a memory limit.
    AskMemory { placeholder: bool },
    /// The combination is to be run.
    Run { placeholder: bool, memory: bool },
    /// Every combination has its result.
    Finished,
}

/// The mathematical content of a [`BenchFile`].
pub struct FileView {
    pub path: Seq<char>,
    pub name: Seq<char>,
}

/// The mathematical content of a [`BenchConfig`].
pub struct ConfigView {
    pub revs: Seq<Seq<char>>,
    pub files: Seq<FileView>,
    pub modes: Seq<Mode>,
}

/// The mathematical content of an [`Action`].
pub enum ActionView {
    Checkout { rev: Seq<char> },
    Find { key: KeyView },
    Build { key: KeyView, args: Seq<Seq<char>> },
    Compile { key: KeyView, path: Seq<char>, args: Seq<Seq<char>> },
    Store { key: KeyView },
    IsAncestor { candidate: Seq<char> },
    Run { key: KeyView, args: Seq<Seq<char>> },
    Finish,
}

/// The mathematical content of an [`Event`].
pub enum EventView {
    Failed,
    Done,
    Found(bool),
    Ancestor(bool),
    Ran { outcome: RunOutcome, output: Seq<char> },
}

/// The mathematical content of a [`Bencher`].
pub struct BencherView {
    pub config: ConfigView,
    /// The place of the revision at work.
    pub rev: int,
    /// The place of the file at work.
    pub file: int,
    /// The place of the mode at work.
    pub mode: int,
    pub phase: Phase,
    /// The results so far.
    pub data: Seq<DatumView>,
}

impl View for BenchFile {
    type V = FileView;

    open spec fn view(&self) -> FileView {
        FileView { path: self.path@, name: self.name@ }
    }
}

impl View for BenchConfig {
    type V = ConfigView;

    open spec fn view(&self) -> ConfigView {
        ConfigView {
            revs: texts(self.revs@),
            files: self.files@.map_values(|f: BenchFile| f@),
            modes: self.modes@,
        }
    }
}

impl View for Action {
    type V = ActionView;

    open spec fn view(&self) -> ActionView {
        match self {
            Action::Checkout { rev } => ActionView::Checkout { rev: rev@ },
            Action::Find { key } => ActionView::Find { key: key@ },
            Action::Build { key, args } => ActionView::Build { key: key@, args: texts(args@) },
            Action::Compile { key, path, args } => ActionView::Compile {
                key: key@,
                path: path@,
                args: texts(args@),
            },
            Action::Store { key } => ActionView::Store { key: key@ },
            Action::IsAncestor { candidate } => ActionView::IsAncestor { candidate: candidate@ },
            Action::Run { key, args } => ActionView::Run { key: key@, args: texts(args@) },
            Action::Finish => ActionView::Finish,
        }
    }
}

impl View for Event {
    type V = EventView;

    open spec fn view(&self) -> EventView {
        match self {
            Event::Failed => EventView::Failed,
            Event::Done => EventView::Done,
            Event::Found(b) => EventView::Found(*b),
            Event::Ancestor(b) => EventView::Ancestor(*b),
            Event::Ran { outcome, output } => EventView::Ran { outcome: *outcome, output: output@ },
        }
    }
}

/// The contents of a list of files.
pub open spec fn file_views(files: Seq<BenchFile>) -> Seq<FileView> {
    files.map_values(|f: BenchFile| f@)
}

/// What the exit code of an ancestry query says: 0 that the candidate is an
/// ancestor, 1 that it is not; with any other code, and without one, the
/// query itself has failed.
pub open spec fn ancestry_of(code: Option<i32>) -> EventView {
    match code {
        Some(0) => EventView::Ancestor(true),
        Some(1) => EventView::Ancestor(false),
        _ => EventView::Failed,
    }
}

/// The event that the exit code of an ancestry query amounts to.
pub fn ancestry(code: Option<i32>) -> (e: Event)
    ensures
        e@ == ancestry_of(code),
{
    match code {
        Some(0) => Event::Ancestor(true),
        Some(1) => Event::Ancestor(false),
        _ => Event::Failed,
    }
}

/// The contents of a list of events.
pub open spec fn event_views(events: Seq<Event>) -> Seq<EventView> {
    events.map_values(|e: Event| e@)
}

/// The failure that a phase stands for when its action cannot be carried
/// out, where the failure has a name.
pub open spec fn failure_of(phase: Phase) -> Option<Error> {
    match phase {
        Phase::Checkout => Some(Error::VcsCheckoutFailed),
        Phase::BuildRuntime | Phase::StoreRuntime => Some(Error::BuildFailed),
        Phase::CompileBinary | Phase::StoreBinary => Some(Error::CompileFailed),
        Phase::AskPlaceholder | Phase::AskMemory { .. } => Some(Error::VcsQueryFailed),
        _ => None,
    }
}

impl Phase {
    /// The failure that this phase stands for when its action cannot be
    /// carried out.
    pub fn failure(&self) -> (res: Option<Error>)
        ensures
            res == failure_of(*self),
    {
        match self {
            Phase::Checkout => Some(Error::VcsCheckoutFailed),
            Phase::BuildRuntime | Phase::StoreRuntime => Some(Error::BuildFailed),
            Phase::CompileBinary | Phase::StoreBinary => Some(Error::CompileFailed),
            Phase::AskPlaceholder | Phase::AskMemory { .. } => Some(Error::VcsQueryFailed),
            _ => None,
        }
    }
}

/// A sweep: what is to be swept, where the sweep stands, and the results so
/// far.
pub struct Bencher {
    config: BenchConfig,
    rev: usize,
    file: usize,
    mode: usize,
    phase: Phase,
    data: Vec<Datum>,
}

impl View for Bencher {
    type V = BencherView;

    closed spec fn view(&self) -> BencherView {
        BencherView {
            config: self.config@,
            rev: self.rev as int,
            file: self.file as int,
            mode: self.mode as int,
            phase: self.phase,
            data: views(self.data@),
        }
    }
}

/// The phase that follows once the runtime of the revision is there.
fn after_runtime_of(mode: Mode) -> (phase: Phase)
    ensures
        phase == after_runtime(mode),
{
    if mode.compiled {
        Phase::FindBinary
    } else {
        Phase::AskMemory { placeholder: false }
    }
}

/// The result of a combination.
fn datum_of(config: &BenchConfig, rev: usize, file: usize, mode: usize, stats: Option<Stats>) -> (d: Datum)
    requires
        rev < config.revs@.len(),
        file < config.files@.len(),
        mode < config.modes@.len(),
    ensures
        d@ == datum_at(config@, rev as int, file as int, mode as int, stats_content(stats)),
{
    assert(config@.revs[rev as int] == config.revs@[rev as int]@);
    assert(config@.files[file as int] == config.files@[file as int]@);
    Datum {
        rev: config.revs[rev].clone(),
        file: config.files[file].name.clone(),
        mode: config.modes[mode],
        stats,
    }
}

impl Bencher {
    #[verifier::type_invariant]
    spec fn inv(self) -> bool {
        wf(self@)
    }

    /// A sweep of `config`, before anything was done.
    pub fn new(config: BenchConfig) -> (b: Bencher)
        ensures
            b@ == start(config@),
            wf(b@),
    {
        proof {
            lemma_start_is_wf(config@);
        }
        let phase = if config.revs.len() > 0 {
            Phase::Checkout
        } else {
            Phase::Finished
        };
        assert(config@.revs.len() == config.revs@.len());
        let data: Vec<Datum> = Vec::new();
        assert(views(data@) == Seq::<DatumView>::empty());
        Bencher { config, rev: 0, file: 0, mode: 0, phase, data }
    }

    /// What is swept.
    pub fn config(&self) -> (config: &BenchConfig)
        ensures
            config@ == self@.config,
    {
        &self.config
    }

    /// Whether every combination has its result.
    pub fn finished(&self) -> (yes: bool)
        ensures
            yes == (self@.phase is Finished),
            wf(self@),
    {
        proof {
            use_type_invariant(self);
        }
        match self.phase {
            Phase::Finished => true,
            _ => false,
        }
    }

    /// The results so far. Those of a finished sweep are one for every
    /// combination, in the order of the plan.
    pub fn data(&self) -> (data: &Vec<Datum>)
        ensures
            views(data@) == self@.data,
            wf(self@),
            self@.phase is Finished ==> tags(views(data@)) == plan(self@.config),
    {
        proof {
            use_type_invariant(self);
            if self@.phase is Finished {
                lemma_finished_sweep_is_full(self@);
            }
        }
        &self.data
    }

    /// The sweep at the beginning of the next revision.
    fn to_next_rev(config: BenchConfig, rev: usize, data: Vec<Datum>) -> (b: Bencher)
        requires
            rev < config.revs@.len(),
            wf(next_rev(at_checkout(config@, rev as int, views(data@)))),
        ensures
            b@ == next_rev(at_checkout(config@, rev as int, views(data@))),
    {
        assert(config@.revs.len() == config.revs@.len());
        let count = config.revs.len();
        let phase = if rev + 1 < count {
            Phase::Checkout
        } else {
            Phase::Finished
        };
        Bencher { config, rev: rev + 1, file: 0, mode: 0, phase, data }
    }

    /// The sweep after the combination at work got its result.
    fn recorded(self, stats: Option<Stats>) -> (b: Bencher)
        requires
            0 <= self@.file < self@.config.files.len(),
            0 <= self@.mode < self@.config.modes.len(),
            !(self@.phase is Finished),
        ensures
            b@ == record(self@, stats_content(stats)),
    {
        proof {
            use_type_invariant(&self);
        }
        let ghost before = self@;
        let ghost seen = stats_content(stats);
        proof {
            lemma_record_is_wf(before, seen);
        }
        let Bencher { config, rev, file, mode, phase, mut data } = self;
        assert(config@.files.len() == config.files@.len());
        assert(config@.revs.len() == config.revs@.len());
        let ghost data_before = views(data@);
        let d = datum_of(&config, rev, file, mode, stats);
        data.push(d);
        assert(views(data@) == data_before.push(d@));
        let modes = config.modes.len();
        let files = config.files.len();
        if mode + 1 < modes {
            Bencher { config, rev, file, mode: mode + 1, phase: Phase::FindRuntime, data }
        } else if file + 1 < files {
            Bencher { config, rev, file: file + 1, mode: 0, phase: Phase::FindRuntime, data }
        } else {
            Bencher::to_next_rev(config, rev, data)
        }
    }

    /// The sweep after the revision at work was given up.
    fn given_up(self) -> (b: Bencher)
        requires
            self@.phase is Checkout,
        ensures
            b@ == give_up_rev(self@),
    {
        proof {
            use_type_invariant(&self);
        }
        let ghost before = self@;
        proof {
            lemma_give_up_is_wf(before);
        }
        let Bencher { config, rev, file, mode, phase, mut data } = self;
        let ghost c = config@;
        let ghost data_before = views(data@);
        assert(c.files.len() == config.files@.len());
        assert(c.revs.len() == config.revs@.len());
        let mut f: usize = 0;
        assert(data_before + rev_part(c, rev as int, 0) == data_before);
        while f < config.files.len()
            invariant
                f <= config.files.len(),
                c == config@,
                rev < config.revs@.len(),
                views(data@) == data_before + rev_part(c, rev as int, f as int),
            decreases config.files.len() - f,
        {
            let ghost row_before = views(data@);
            let mut m: usize = 0;
            assert(row_before + file_part(c, rev as int, f as int, 0) == row_before);
            while m < config.modes.len()
                invariant
                    m <= config.modes.len(),
                    f < config.files.len(),
                    c == config@,
                    rev < config.revs@.len(),
                    views(data@) == row_before + file_part(c, rev as int, f as int, m as int),
                decreases config.modes.len() - m,
            {
                let ghost cell_before = views(data@);
                let d = datum_of(&config, rev, f, m, None);
                data.push(d);
                assert(views(data@) == cell_before.push(d@));
                assert(file_part(c, rev as int, f as int, m + 1) == file_part(c, rev as int, f as int, m as int).push(
                    d@,
                ));
                m += 1;
            }
            assert(data_before + rev_part(c, rev as int, f as int) + file_part(
                c,
                rev as int,
                f as int,
                c.modes.len() as int,
            ) == data_before + rev_part(c, rev as int, f + 1));
            f += 1;
        }
        Bencher::to_next_rev(config, rev, data)
    }

    /// The sweep in another phase of the same combination.
    fn moved_to(self, phase: Phase) -> (b: Bencher)
        requires
            wf(in_phase(self@, phase)),
        ensures
            b@ == in_phase(self@, phase),
    {
        let Bencher { config, rev, file, mode, phase: _, data } = self;
        Bencher { config, rev, file, mode, phase, data }
    }

    /// The artifact of the runtime of the revision at work.
    fn runtime(&self) -> (key: ArtifactKey)
        requires
            self@.rev < self@.config.revs.len(),
        ensures
            key@ == runtime_key(self@),
    {
        assert(self.config@.revs[self.rev as int] == self.config.revs@[self.rev as int]@);
        ArtifactKey { rev: self.config.revs[self.rev].clone(), file: None }
    }

    /// The artifact of the binary of the file at work.
    fn binary(&self) -> (key: ArtifactKey)
        requires
            self@.rev < self@.config.revs.len(),
            self@.file < self@.config.files.len(),
        ensures
            key@ == binary_key(self@),
    {
        assert(self.config@.revs[self.rev as int] == self.config.revs@[self.rev as int]@);
        assert(self.config@.files[self.file as int] == self.config.files@[self.file as int]@);
        ArtifactKey {
            rev: self.config.revs[self.rev].clone(),
            file: Some(self.config.files[self.file].name.clone()),
        }
    }

    /// What is to be done next.
    pub fn action(&self) -> (a: Action)
        ensures
            a@ == action_of(self@),
    {
        proof {
            use_type_invariant(self);
        }
        assert(self.config@.revs.len() == self.config.revs@.len());
        assert(self.config@.files.len() == self.config.files@.len());
        match self.phase {
            Phase::Checkout => {
                assert(self.config@.revs[self.rev as int] == self.config.revs@[self.rev as int]@);
                Action::Checkout { rev: self.config.revs[self.rev].clone() }
            },
            Phase::FindRuntime => Action::Find { key: self.runtime() },
            Phase::BuildRuntime => Action::Build { key: self.runtime(), args: build() },
            Phase::StoreRuntime => Action::Store { key: self.runtime() },
            Phase::FindBinary => Action::Find { key: self.binary() },
            Phase::CompileBinary => {
                assert(self.config@.files[self.file as int] == self.config.files@[self.file as int]@);
                Action::Compile {
                    key: self.binary(),
                    path: self.config.files[self.file].path.clone(),
                    args: compile(),
                }
            },
            Phase::StoreBinary => Action::Store { key: self.binary() },
            Phase::AskPlaceholder => Action::IsAncestor {
                candidate: Capability::PointerRefactor.introduced_at().to_owned(),
            },
            Phase::AskMemory { .. } => Action::IsAncestor {
                candidate: Capability::MemoryLimit.introduced_at().to_owned(),
            },
            Phase::Run { placeholder, memory } => {
                let mode = self.config.modes[self.mode];
                assert(self.config@.files[self.file as int] == self.config.files@[self.file as int]@);
                if mode.compiled {
                    Action::Run { key: self.binary(), args: bench_compiled(!mode.multi, placeholder, memory) }
                } else {
                    Action::Run {
                        key: self.runtime(),
                        args: bench_interpreted(self.config.files[self.file].path.as_str(), mode.multi, memory),
                    }
                }
            },
            Phase::Finished => Action::Finish,
        }
    }

    /// The combination at work, as a result without metrics; none while a
    /// revision is checked out, and none at the end.
    pub fn combination(&self) -> (res: Option<Datum>)
        ensures
            match res {
                Some(d) => in_combination(self@.phase) && d@ == datum_at(
                    self@.config,
                    self@.rev,
                    self@.file,
                    self@.mode,
                    None,
                ),
                None => !in_combination(self@.phase),
            },
    {
        proof {
            use_type_invariant(self);
        }
        assert(self.config@.revs.len() == self.config.revs@.len());
        assert(self.config@.files.len() == self.config.files@.len());
        match self.phase {
            Phase::Checkout | Phase::Finished => None,
            _ => Some(datum_of(&self.config, self.rev, self.file, self.mode, None)),
        }
    }

    /// Whether no file is named, so that the input files of a directory are
    /// to be found.
    pub fn needs_files(&self) -> (yes: bool)
        ensures
            yes == (self@.config.files.len() == 0),
    {
        assert(self.config@.files.len() == self.config.files@.len());
        self.config.files.len() == 0
    }

    /// Whether no revision is named, so that the revisions are to be found
    /// among the tags of the repository.
    pub fn needs_revisions(&self) -> (yes: bool)
        ensures
            yes == (self@.config.revs.len() == 0),
    {
        assert(self.config@.revs.len() == self.config.revs@.len());
        self.config.revs.len() == 0
    }

    /// Fills in what the configuration leaves open, and starts the sweep
    /// anew. Without modes, every mode is swept. Without files, the input
    /// files among `found` are swept, in their order. Without revisions, the
    /// revisions that `listing` names are swept, ordered by their numbers.
    ///
    /// Where revisions are to be found and a tag of the listing that names
    /// one has no number, there is no sweep.
    pub fn init(self, found: &Vec<BenchFile>, listing: &str) -> (res: Option<Bencher>)
        ensures
            match res {
                Some(b) => {
                    &&& wf(b@)
                    &&& b@ == start(b@.config)
                    &&& b@.config.modes == if self@.config.modes.len() == 0 {
                        Mode::all()
                    } else {
                        self@.config.modes
                    }
                    &&& b@.config.files == if self@.config.files.len() == 0 {
                        inputs(file_views(found@))
                    } else {
                        self@.config.files
                    }
                    &&& if self@.config.revs.len() == 0 {
                        &&& forall|i: int|
                            0 <= i < candidates(listing@).len() ==> (
                            #[trigger] order_key(candidates(listing@)[i]))
                                is Some
                        &&& ordered(candidates(listing@), b@.config.revs)
                    } else {
                        b@.config.revs == self@.config.revs
                    }
                },
                None => self@.config.revs.len() == 0 && exists|i: int|
                    0 <= i < candidates(listing@).len() && (
                    #[trigger] order_key(candidates(listing@)[i]))
                        is None,
            },
    {
        let Bencher { config, rev: _, file: _, mode: _, phase: _, data: _ } = self;
        let BenchConfig { revs, files, modes } = config;
        let modes = if modes.len() == 0 {
            Mode::value_variants()
        } else {
            modes
        };
        let files = if files.len() == 0 {
            let ghost all = file_views(found@);
            let mut kept: Vec<BenchFile> = Vec::new();
            let mut i: usize = 0;
            assert(all.take(0).filter(|f: FileView| is_input_name(f.name)) == Seq::<FileView>::empty());
            while i < found.len()
                invariant
                    i <= found.len(),
                    all == file_views(found@),
                    file_views(kept@) == inputs(all.take(i as int)),
                decreases found.len() - i,
            {
                let ghost before = file_views(kept@);
                proof {
                    assert(all.take(i + 1).drop_last() == all.take(i as int));
                    assert(all.take(i + 1).last() == found@[i as int]@);
                    reveal(Seq::filter);
                }
                if has_input_extension(found[i].name.as_str()) {
                    let file = BenchFile { path: found[i].path.clone(), name: found[i].name.clone() };
                    kept.push(file);
                    assert(file_views(kept@) == before.push(file@));
                }
                i += 1;
            }
            assert(all.take(found.len() as int) == all);
            kept
        } else {
            files
        };
        let revs = if revs.len() == 0 {
            match discover_revisions(listing) {
                None => {
                    return None;
                },
                Some(revs) => revs,
            }
        } else {
            revs
        };
        Some(Bencher::new(BenchConfig { revs, files, modes }))
    }

    /// Sweeps with the given events in place of the world: each event
    /// answers the action that the sweep asks for at its turn. Where every
    /// event fits and the last one finishes the sweep, the results are one
    /// for every combination of revision, file and mode, in the order of the
    /// plan.
    pub fn bench_all(self, events: &Vec<Event>) -> (res: Option<Vec<Datum>>)
        ensures
            match res {
                Some(data) => {
                    &&& completes(self@, event_views(events@))
                    &&& views(data@) == replay(
                        self@,
                        event_views(events@),
                        events@.len() as int,
                    ).unwrap().data
                    &&& tags(views(data@)) == plan(self@.config)
                    &&& data@.len() == self@.config.revs.len() * (self@.config.files.len()
                        * self@.config.modes.len())
                },
                None => !completes(self@, event_views(events@)),
            },
    {
        proof {
            use_type_invariant(&self);
        }
        let ghost first = self@;
        let ghost all = event_views(events@);
        let mut b = self;
        let mut i: usize = 0;
        while i < events.len()
            invariant
                i <= events.len(),
                all == event_views(events@),
                first == self@,
                wf(first),
                replay(first, all, i as int) == Some(b@),
            decreases events.len() - i,
        {
            assert(all[i as int] == events@[i as int]@);
            match b.step(&events[i]) {
                Ok(next) => {
                    b = next;
                },
                Err(_) => {
                    proof {
                        assert(replay(first, all, i + 1) is None);
                        assert(all.len() == events@.len());
                        lemma_replay_stays_refused(first, all, i + 1, all.len() as int);
                        assert(!completes(first, all));
                    }
                    return None;
                },
            }
            i += 1;
        }
        proof {
            lemma_replay_is_wf(first, all, events.len() as int);
        }
        if b.finished() {
            proof {
                lemma_finished_sweep_is_full(b@);
            }
            let Bencher { config: _, rev: _, file: _, mode: _, phase: _, data } = b;
            Some(data)
        } else {
            None
        }
    }

    /// Whether `event` answers the action of this sweep.
    pub fn accepts(&self, event: &Event) -> (yes: bool)
        ensures
            yes == fits(self@.phase, event@),
    {
        match self.phase {
            Phase::Checkout | Phase::StoreRuntime | Phase::StoreBinary => match event {
                Event::Done | Event::Failed => true,
                _ => false,
            },
            Phase::FindRuntime | Phase::FindBinary => match event {
                Event::Found(_) => true,
                _ => false,
            },
            Phase::AskPlaceholder | Phase::AskMemory { .. } => match event {
                Event::Ancestor(_) | Event::Failed => true,
                _ => false,
            },
            Phase::BuildRuntime | Phase::CompileBinary | Phase::Run { .. } => match event {
                Event::Ran { .. } | Event::Failed => true,
                _ => false,
            },
            Phase::Finished => false,
        }
    }

    /// Takes in what happened to the action of this sweep and moves on. An
    /// event that does not answer the action is refused: the sweep comes
    /// back as it was.
    pub fn step(self, event: &Event) -> (res: Result<Bencher, Bencher>)
        ensures
            match res {
                Ok(b) => fits(self@.phase, event@) && b@ == next(self@, event@) && wf(b@),
                Err(b) => !fits(self@.phase, event@) && b@ == self@,
            },
    {
        proof {
            use_type_invariant(&self);
        }
        if !self.accepts(event) {
            return Err(self);
        }
        proof {
            lemma_next_is_wf(self@, event@);
        }
        assert(self.config@.files.len() == self.config.files@.len());
        let b = match self.phase {
            Phase::Checkout => match event {
                Event::Done => {
                    if self.config.files.len() == 0 || self.config.modes.len() == 0 {
                        let Bencher { config, rev, file, mode, phase, data } = self;
                        Bencher::to_next_rev(config, rev, data)
                    } else {
                        self.moved_to(Phase::FindRuntime)
                    }
                },
                _ => self.given_up(),
            },
            Phase::FindRuntime => match event {
                Event::Found(true) => {
                    let phase = after_runtime_of(self.config.modes[self.mode]);
                    self.moved_to(phase)
                },
                _ => self.moved_to(Phase::BuildRuntime),
            },
            Phase::BuildRuntime => match event {
                Event::Ran { outcome: RunOutcome::Exited(0), .. } => self.moved_to(Phase::StoreRuntime),
                _ => self.recorded(None),
            },
            Phase::StoreRuntime => match event {
                Event::Done => {
                    let phase = after_runtime_of(self.config.modes[self.mode]);
                    self.moved_to(phase)
                },
                _ => self.recorded(None),
            },
            Phase::FindBinary => match event {
                Event::Found(true) => self.moved_to(Phase::AskPlaceholder),
                _ => self.moved_to(Phase::CompileBinary),
            },
            Phase::CompileBinary => match event {
                Event::Ran { outcome: RunOutcome::Exited(0), .. } => self.moved_to(Phase::StoreBinary),
                _ => self.recorded(None),
            },
            Phase::StoreBinary => match event {
                Event::Done => self.moved_to(Phase::AskPlaceholder),
                _ => self.recorded(None),
            },
            Phase::AskPlaceholder => match event {
                Event::Ancestor(yes) => self.moved_to(Phase::AskMemory { placeholder: !*yes }),
                _ => self.recorded(None),
            },
            Phase::AskMemory { placeholder } => match event {
                Event::Ancestor(yes) => self.moved_to(Phase::Run { placeholder, memory: *yes }),
                _ => self.recorded(None),
            },
            Phase::Run { .. } => match event {
                Event::Ran { outcome, output } => {
                    let stats = match run_result(*outcome, output.as_str()) {
                        Ok(stats) => Some(stats),
                        Err(_) => None,
                    };
                    self.recorded(stats)
                },
                _ => self.recorded(None),
            },
            Phase::Finished => self,
        };
        Ok(b)
    }
}

} // verus!
