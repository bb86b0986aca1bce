//! The sweep as a mathematical object: the plan of all combinations, the
//! step that an event makes, and what holds of every sweep.

use vstd::prelude::*;
use crate::bencher::{ActionView, BencherView, ConfigView, EventView, FileView, Phase};
use crate::command::{
    build_args, compile_args, compiled_args, interpreted_args, introduction, run_stats, Capability, KeyView,
};
use crate::discover::is_input_name;
use crate::mode::Mode;
use crate::runner::RunOutcome;
use crate::types::{DatumView, StatsView};

verus! {

/// Whether an event says that a process ran and ended by itself with exit
/// code 0.
pub open spec fn ended_well(event: EventView) -> bool {
    event matches EventView::Ran { outcome, .. } && outcome == RunOutcome::Exited(0)
}

/// The result of the combination at the given places, with the given
/// metrics.
pub open spec fn datum_at(c: ConfigView, rev: int, file: int, mode: int, stats: Option<StatsView>) -> DatumView {
    DatumView { rev: c.revs[rev], file: c.files[file].name, mode: c.modes[mode], stats }
}

/// What a result says of its combination, its metrics left out.
pub open spec fn tag(d: DatumView) -> DatumView {
    DatumView { rev: d.rev, file: d.file, mode: d.mode, stats: None }
}

/// What results say of their combinations.
pub open spec fn tags(data: Seq<DatumView>) -> Seq<DatumView> {
    data.map_values(|d: DatumView| tag(d))
}

/// The combinations of one revision and file with the first `n` modes.
pub open spec fn file_part(c: ConfigView, rev: int, file: int, n: int) -> Seq<DatumView> {
    Seq::new(n as nat, |m: int| datum_at(c, rev, file, m, None))
}

/// The combinations of one revision with the first `n` files and all modes.
pub open spec fn rev_part(c: ConfigView, rev: int, n: int) -> Seq<DatumView>
    decreases n,
{
    if n <= 0 {
        Seq::empty()
    } else {
        rev_part(c, rev, n - 1) + file_part(c, rev, n - 1, c.modes.len() as int)
    }
}

/// The combinations of the first `n` revisions with all files and modes.
pub open spec fn revs_part(c: ConfigView, n: int) -> Seq<DatumView>
    decreases n,
{
    if n <= 0 {
        Seq::empty()
    } else {
        revs_part(c, n - 1) + rev_part(c, n - 1, c.files.len() as int)
    }
}

/// The combinations that come before the one at the given places.
pub open spec fn done(c: ConfigView, rev: int, file: int, mode: int) -> Seq<DatumView> {
    revs_part(c, rev) + rev_part(c, rev, file) + file_part(c, rev, file, mode)
}

/// Every combination of a revision, a file and a mode, in the order of the
/// sweep: revisions outermost, modes innermost.
pub open spec fn plan(c: ConfigView) -> Seq<DatumView> {
    revs_part(c, c.revs.len() as int)
}

/// Whether an event answers the action of a phase.
pub open spec fn fits(phase: Phase, event: EventView) -> bool {
    match phase {
        Phase::Checkout | Phase::StoreRuntime | Phase::StoreBinary => event is Done || event is Failed,
        Phase::FindRuntime | Phase::FindBinary => event is Found,
        Phase::AskPlaceholder | Phase::AskMemory { .. } => event is Ancestor || event is Failed,
        Phase::BuildRuntime | Phase::CompileBinary | Phase::Run { .. } => event is Ran || event is Failed,
        Phase::Finished => false,
    }
}

/// Whether a phase belongs to the work on one combination, not to that on a
/// whole revision.
pub open spec fn in_combination(phase: Phase) -> bool {
    !(phase is Checkout || phase is Finished)
}

/// The phase that follows once the runtime of the revision is there: a
/// compiled mode needs its binary next, an interpreted one goes on to ask
/// for the memory limit.
pub open spec fn after_runtime(mode: Mode) -> Phase {
    if mode.compiled {
        Phase::FindBinary
    } else {
        Phase::AskMemory { placeholder: false }
    }
}

/// A sweep about to check a revision out, with the given results so far.
pub open spec fn at_checkout(c: ConfigView, rev: int, data: Seq<DatumView>) -> BencherView {
    BencherView { config: c, rev, file: 0, mode: 0, phase: Phase::Checkout, data }
}

/// The sweep in another phase of the same combination.
pub open spec fn in_phase(s: BencherView, phase: Phase) -> BencherView {
    BencherView { phase, ..s }
}

/// The sweep at the beginning of the next revision, or finished after the
/// last.
pub open spec fn next_rev(s: BencherView) -> BencherView {
    BencherView {
        rev: s.rev + 1,
        file: 0,
        mode: 0,
        phase: if s.rev + 1 < s.config.revs.len() {
            Phase::Checkout
        } else {
            Phase::Finished
        },
        ..s
    }
}

/// The sweep at the beginning of the work on a combination: the runtime of
/// the revision is looked up first.
pub open spec fn enter(s: BencherView) -> BencherView {
    BencherView { phase: Phase::FindRuntime, ..s }
}

/// The sweep with the runtime of the revision at hand.
pub open spec fn with_runtime(s: BencherView) -> BencherView {
    BencherView { phase: after_runtime(s.config.modes[s.mode]), ..s }
}

/// The sweep with the result of the combination at work added.
pub open spec fn with_result(s: BencherView, stats: Option<StatsView>) -> BencherView {
    BencherView { data: s.data.push(datum_at(s.config, s.rev, s.file, s.mode, stats)), ..s }
}

/// The sweep after the combination at work got its result: at the next
/// mode, else at the next file, else at the next revision.
pub open spec fn record(s: BencherView, stats: Option<StatsView>) -> BencherView {
    let data = s.data.push(datum_at(s.config, s.rev, s.file, s.mode, stats));
    if s.mode + 1 < s.config.modes.len() {
        enter(BencherView { mode: s.mode + 1, data, ..s })
    } else if s.file + 1 < s.config.files.len() {
        enter(BencherView { file: s.file + 1, mode: 0, data, ..s })
    } else {
        next_rev(BencherView { data, ..s })
    }
}

/// The sweep after the revision at work was given up: every combination of
/// it has a result without metrics.
pub open spec fn give_up_rev(s: BencherView) -> BencherView {
    next_rev(BencherView { data: s.data + rev_part(s.config, s.rev, s.config.files.len() as int), ..s })
}

/// The sweep after an event that fits its phase.
///
/// A failed checkout gives the whole revision up. A failed build,
/// compilation, ancestry query or run gives the combination a result without
/// metrics, and the sweep goes on with the next combination. A run gives the
/// combination the metrics read from its output. What a build or a
/// compilation leaves is stored only where its process ended well.
pub open spec fn next(s: BencherView, event: EventView) -> BencherView {
    match s.phase {
        Phase::Checkout => if event is Done {
            if s.config.files.len() == 0 || s.config.modes.len() == 0 {
                next_rev(s)
            } else {
                enter(s)
            }
        } else {
            give_up_rev(s)
        },
        Phase::FindRuntime => if event == EventView::Found(true) {
            with_runtime(s)
        } else {
            BencherView { phase: Phase::BuildRuntime, ..s }
        },
        Phase::BuildRuntime => if ended_well(event) {
            BencherView { phase: Phase::StoreRuntime, ..s }
        } else {
            record(s, None)
        },
        Phase::StoreRuntime => if event is Done {
            with_runtime(s)
        } else {
            record(s, None)
        },
        Phase::FindBinary => if event == EventView::Found(true) {
            BencherView { phase: Phase::AskPlaceholder, ..s }
        } else {
            BencherView { phase: Phase::CompileBinary, ..s }
        },
        Phase::CompileBinary => if ended_well(event) {
            BencherView { phase: Phase::StoreBinary, ..s }
        } else {
            record(s, None)
        },
        Phase::StoreBinary => if event is Done {
            BencherView { phase: Phase::AskPlaceholder, ..s }
        } else {
            record(s, None)
        },
        Phase::AskPlaceholder => match event {
            EventView::Ancestor(yes) => BencherView { phase: Phase::AskMemory { placeholder: !yes }, ..s },
            _ => record(s, None),
        },
        Phase::AskMemory { placeholder } => match event {
            EventView::Ancestor(yes) => BencherView { phase: Phase::Run { placeholder, memory: yes }, ..s },
            _ => record(s, None),
        },
        Phase::Run { .. } => match event {
            EventView::Ran { outcome, output } => record(s, run_stats(outcome, output)),
            _ => record(s, None),
        },
        Phase::Finished => s,
    }
}

/// The sweep before anything was done.
pub open spec fn start(c: ConfigView) -> BencherView {
    BencherView {
        config: c,
        rev: 0,
        file: 0,
        mode: 0,
        phase: if c.revs.len() > 0 {
            Phase::Checkout
        } else {
            Phase::Finished
        },
        data: Seq::empty(),
    }
}

/// Whether a sweep is in order: its places lie within the configuration, its
/// phase goes with them, and it holds the results of exactly the
/// combinations that come before the one at work.
pub open spec fn wf(s: BencherView) -> bool {
    &&& 0 <= s.rev <= s.config.revs.len()
    &&& s.phase is Finished <==> s.rev == s.config.revs.len()
    &&& match s.phase {
        Phase::Finished | Phase::Checkout => s.file == 0 && s.mode == 0,
        Phase::FindRuntime | Phase::BuildRuntime | Phase::StoreRuntime => 0 <= s.file < s.config.files.len()
            && 0 <= s.mode < s.config.modes.len(),
        Phase::FindBinary | Phase::CompileBinary | Phase::StoreBinary | Phase::AskPlaceholder => 0 <= s.file
            < s.config.files.len() && 0 <= s.mode < s.config.modes.len()
            && s.config.modes[s.mode].compiled,
        Phase::AskMemory { placeholder } => 0 <= s.file < s.config.files.len() && 0 <= s.mode
            < s.config.modes.len() && (placeholder ==> s.config.modes[s.mode].compiled),
        Phase::Run { placeholder, .. } => 0 <= s.file < s.config.files.len() && 0 <= s.mode
            < s.config.modes.len() && (placeholder ==> s.config.modes[s.mode].compiled),
    }
    &&& tags(s.data) == done(s.config, s.rev, s.file, s.mode)
}

/// The artifact of the runtime of the revision at work.
pub open spec fn runtime_key(s: BencherView) -> KeyView {
    KeyView { rev: s.config.revs[s.rev], file: None }
}

/// The artifact of the binary of the file at work.
pub open spec fn binary_key(s: BencherView) -> KeyView {
    KeyView { rev: s.config.revs[s.rev], file: Some(s.config.files[s.file].name) }
}

/// What a sweep asks for in its phase. An interpreted combination runs the
/// runtime on the file, a compiled one runs the binary; either is told to
/// keep to one thread, by `-1`, exactly where the mode is not `multi`.
pub open spec fn action_of(s: BencherView) -> ActionView {
    match s.phase {
        Phase::Checkout => ActionView::Checkout { rev: s.config.revs[s.rev] },
        Phase::FindRuntime => ActionView::Find { key: runtime_key(s) },
        Phase::BuildRuntime => ActionView::Build { key: runtime_key(s), args: build_args() },
        Phase::StoreRuntime => ActionView::Store { key: runtime_key(s) },
        Phase::FindBinary => ActionView::Find { key: binary_key(s) },
        Phase::CompileBinary => ActionView::Compile {
            key: binary_key(s),
            path: s.config.files[s.file].path,
            args: compile_args(),
        },
        Phase::StoreBinary => ActionView::Store { key: binary_key(s) },
        Phase::AskPlaceholder => ActionView::IsAncestor { candidate: introduction(Capability::PointerRefactor) },
        Phase::AskMemory { .. } => ActionView::IsAncestor { candidate: introduction(Capability::MemoryLimit) },
        Phase::Run { placeholder, memory } => if s.config.modes[s.mode].compiled {
            ActionView::Run {
                key: binary_key(s),
                args: compiled_args(!s.config.modes[s.mode].multi, placeholder, memory),
            }
        } else {
            ActionView::Run {
                key: runtime_key(s),
                args: interpreted_args(s.config.files[s.file].path, s.config.modes[s.mode].multi, memory),
            }
        },
        Phase::Finished => ActionView::Finish,
    }
}

/// The first `n` files of a revision have `n` times as many combinations as
/// there are modes.
pub proof fn lemma_rev_part_len(c: ConfigView, rev: int, n: int)
    requires
        0 <= n,
    ensures
        rev_part(c, rev, n).len() == n * c.modes.len(),
    decreases n,
{
    let m = c.modes.len() as int;
    if n > 0 {
        lemma_rev_part_len(c, rev, n - 1);
        assert(file_part(c, rev, n - 1, m).len() == m);
        assert(rev_part(c, rev, n).len() == rev_part(c, rev, n - 1).len() + m);
        assert((n - 1) * m + m == n * m) by (nonlinear_arith);
    } else {
        assert(n * m == 0) by (nonlinear_arith)
            requires
                n == 0,
        ;
    }
}

/// The first `n` revisions have `n` times as many combinations as there are
/// pairs of a file and a mode.
pub proof fn lemma_revs_part_len(c: ConfigView, n: int)
    requires
        0 <= n,
    ensures
        revs_part(c, n).len() == n * (c.files.len() * c.modes.len()),
    decreases n,
{
    let fm = c.files.len() * c.modes.len();
    if n > 0 {
        lemma_revs_part_len(c, n - 1);
        lemma_rev_part_len(c, n - 1, c.files.len() as int);
        assert(revs_part(c, n).len() == revs_part(c, n - 1).len() + fm);
        assert((n - 1) * fm + fm == n * fm) by (nonlinear_arith);
    } else {
        assert(n * fm == 0) by (nonlinear_arith)
            requires
                n == 0,
        ;
    }
}

/// A sweep starts in order.
pub proof fn lemma_start_is_wf(c: ConfigView)
    ensures
        wf(start(c)),
{
    assert(tags(Seq::<DatumView>::empty()) == done(c, 0, 0, 0));
}

/// Recording a result keeps a sweep in order.
pub proof fn lemma_record_is_wf(s: BencherView, stats: Option<StatsView>)
    requires
        wf(s),
        0 <= s.rev < s.config.revs.len(),
        0 <= s.file < s.config.files.len(),
        0 <= s.mode < s.config.modes.len(),
    ensures
        wf(record(s, stats)),
        record(s, stats).data.len() == s.data.len() + 1,
{
    let c = s.config;
    let d = datum_at(c, s.rev, s.file, s.mode, stats);
    assert(tags(s.data.push(d)) == tags(s.data).push(tag(d)));
    assert(file_part(c, s.rev, s.file, s.mode + 1) == file_part(c, s.rev, s.file, s.mode).push(tag(d)));
    let grown = done(c, s.rev, s.file, s.mode).push(tag(d));
    assert(grown == revs_part(c, s.rev) + rev_part(c, s.rev, s.file) + file_part(
        c,
        s.rev,
        s.file,
        s.mode + 1,
    ));
    if s.mode + 1 < c.modes.len() {
        assert(grown == done(c, s.rev, s.file, s.mode + 1));
    } else if s.file + 1 < c.files.len() {
        assert(file_part(c, s.rev, s.file + 1, 0) == Seq::<DatumView>::empty());
        assert(grown == done(c, s.rev, s.file + 1, 0));
    } else {
        assert(rev_part(c, s.rev + 1, 0) == Seq::<DatumView>::empty());
        assert(file_part(c, s.rev + 1, 0, 0) == Seq::<DatumView>::empty());
        assert(revs_part(c, s.rev + 1) == revs_part(c, s.rev) + rev_part(c, s.rev, c.files.len() as int));
        assert(grown == done(c, s.rev + 1, 0, 0));
    }
}

/// Giving a revision up keeps a sweep in order.
pub proof fn lemma_give_up_is_wf(s: BencherView)
    requires
        wf(s),
        0 <= s.rev < s.config.revs.len(),
        s.file == 0,
        s.mode == 0,
    ensures
        wf(give_up_rev(s)),
{
    let c = s.config;
    let added = rev_part(c, s.rev, c.files.len() as int);
    assert(tags(added) == added) by {
        lemma_tags_of_parts(c, s.rev, c.files.len() as int);
    }
    assert(tags(s.data + added) == tags(s.data) + tags(added));
    assert(rev_part(c, s.rev, 0) == Seq::<DatumView>::empty());
    assert(file_part(c, s.rev, 0, 0) == Seq::<DatumView>::empty());
    assert(rev_part(c, s.rev + 1, 0) == Seq::<DatumView>::empty());
    assert(file_part(c, s.rev + 1, 0, 0) == Seq::<DatumView>::empty());
    assert(tags(s.data) + added == done(c, s.rev + 1, 0, 0));
}

/// The combinations of a revision are their own tags.
pub proof fn lemma_tags_of_parts(c: ConfigView, rev: int, n: int)
    ensures
        tags(rev_part(c, rev, n)) == rev_part(c, rev, n),
    decreases n,
{
    if n > 0 {
        lemma_tags_of_parts(c, rev, n - 1);
        let last = file_part(c, rev, n - 1, c.modes.len() as int);
        assert(tags(last) == last);
        assert(tags(rev_part(c, rev, n - 1) + last) == tags(rev_part(c, rev, n - 1)) + tags(last));
    } else {
        assert(tags(rev_part(c, rev, n)) == rev_part(c, rev, n));
    }
}

/// An event that fits keeps a sweep in order.
pub proof fn lemma_next_is_wf(s: BencherView, event: EventView)
    requires
        wf(s),
        fits(s.phase, event),
    ensures
        wf(next(s, event)),
{
    let c = s.config;
    match s.phase {
        Phase::Checkout => {
            if event is Done {
                if c.files.len() == 0 || c.modes.len() == 0 {
                    lemma_rev_part_len(c, s.rev, c.files.len() as int);
                    assert(rev_part(c, s.rev, c.files.len() as int).len() == 0) by {
                        if c.modes.len() == 0 {
                            assert(c.files.len() * 0 == 0) by (nonlinear_arith);
                        }
                    }
                    assert(rev_part(c, s.rev, c.files.len() as int) == Seq::<DatumView>::empty());
                    assert(rev_part(c, s.rev, 0) == Seq::<DatumView>::empty());
                    assert(rev_part(c, s.rev + 1, 0) == Seq::<DatumView>::empty());
                    assert(file_part(c, s.rev, 0, 0) == Seq::<DatumView>::empty());
                    assert(file_part(c, s.rev + 1, 0, 0) == Seq::<DatumView>::empty());
                    assert(done(c, s.rev, 0, 0) == done(c, s.rev + 1, 0, 0));
                }
            } else {
                lemma_give_up_is_wf(s);
            }
        },
        Phase::FindRuntime => {},
        Phase::BuildRuntime => {
            if !ended_well(event) {
                lemma_record_is_wf(s, None);
            }
        },
        Phase::StoreRuntime => {
            if !(event is Done) {
                lemma_record_is_wf(s, None);
            }
        },
        Phase::FindBinary => {},
        Phase::CompileBinary => {
            if !ended_well(event) {
                lemma_record_is_wf(s, None);
            }
        },
        Phase::StoreBinary => {
            if !(event is Done) {
                lemma_record_is_wf(s, None);
            }
        },
        Phase::AskPlaceholder => {
            if !(event is Ancestor) {
                lemma_record_is_wf(s, None);
            }
        },
        Phase::AskMemory { .. } => {
            if !(event is Ancestor) {
                lemma_record_is_wf(s, None);
            }
        },
        Phase::Run { .. } => {
            match event {
                EventView::Ran { outcome, output } => {
                    lemma_record_is_wf(s, run_stats(outcome, output));
                },
                _ => {
                    lemma_record_is_wf(s, None);
                },
            }
        },
        Phase::Finished => {},
    }
}

/// A finished sweep holds exactly one result for every combination of a
/// revision, a file and a mode, in the order of the plan, whatever failed on
/// the way.
pub proof fn lemma_finished_sweep_is_full(s: BencherView)
    requires
        wf(s),
        s.phase is Finished,
    ensures
        tags(s.data) == plan(s.config),
        s.data.len() == s.config.revs.len() * (s.config.files.len() * s.config.modes.len()),
{
    let c = s.config;
    assert(rev_part(c, s.rev, 0) == Seq::<DatumView>::empty());
    assert(file_part(c, s.rev, 0, 0) == Seq::<DatumView>::empty());
    assert(done(c, s.rev, 0, 0) == plan(c));
    lemma_revs_part_len(c, c.revs.len() as int);
    assert(tags(s.data).len() == s.data.len());
}

/// How far a phase is from the end of the work that it belongs to.
pub open spec fn phase_rank(phase: Phase) -> nat {
    match phase {
        Phase::Checkout => 10,
        Phase::FindRuntime => 9,
        Phase::BuildRuntime => 8,
        Phase::StoreRuntime => 7,
        Phase::FindBinary => 6,
        Phase::CompileBinary => 5,
        Phase::StoreBinary => 4,
        Phase::AskPlaceholder => 3,
        Phase::AskMemory { .. } => 2,
        Phase::Run { .. } => 1,
        Phase::Finished => 0,
    }
}

/// A bound on the number of events that a sweep can still take in: eleven
/// for each combination without a result, eleven for each revision not done
/// with, and the rank of the phase.
pub open spec fn steps_left(s: BencherView) -> int {
    11 * (plan(s.config).len() - s.data.len()) + 11 * (s.config.revs.len() - s.rev) + phase_rank(s.phase)
}

/// The combinations before the one at work are among those of the plan, and
/// where a combination is at work, they are not all of them.
pub proof fn lemma_done_is_within_plan(c: ConfigView, rev: int, file: int, mode: int)
    requires
        0 <= rev <= c.revs.len(),
        0 <= file,
        0 <= mode,
        rev < c.revs.len() ==> file <= c.files.len() && mode <= c.modes.len() && (file == c.files.len()
            ==> mode == 0),
        rev == c.revs.len() ==> file == 0 && mode == 0,
    ensures
        done(c, rev, file, mode).len() <= plan(c).len(),
        rev < c.revs.len() ==> done(c, rev, file, mode).len() <= revs_part(c, rev + 1).len(),
        rev < c.revs.len() && file < c.files.len() && mode < c.modes.len() ==> done(c, rev, file, mode).len()
            < plan(c).len(),
{
    let r = c.revs.len() as int;
    let f = c.files.len() as int;
    let m = c.modes.len() as int;
    lemma_revs_part_len(c, rev);
    lemma_revs_part_len(c, r);
    lemma_rev_part_len(c, rev, file);
    assert(done(c, rev, file, mode).len() == rev * (f * m) + file * m + mode);
    if rev < r {
        lemma_revs_part_len(c, rev + 1);
        assert(file * m + mode <= f * m) by (nonlinear_arith)
            requires
                0 <= file <= f,
                0 <= mode <= m,
                file == f ==> mode == 0,
        ;
        if file < f && mode < m {
            assert(file * m + mode < f * m) by (nonlinear_arith)
                requires
                    0 <= file < f,
                    0 <= mode < m,
            ;
        }
        assert((rev + 1) * (f * m) == rev * (f * m) + f * m) by (nonlinear_arith);
        assert((rev + 1) * (f * m) <= r * (f * m)) by (nonlinear_arith)
            requires
                rev + 1 <= r,
                0 <= f * m,
        ;
        assert(0 <= f * m) by (nonlinear_arith)
            requires
                0 <= f,
                0 <= m,
        ;
    } else {
        assert(0 * m == 0) by (nonlinear_arith);
    }
}

/// Every event that a sweep takes in brings its end closer: the bound on the
/// events still to come goes down, and it never goes below zero. So a sweep
/// ends, whatever the events are.
pub proof fn lemma_step_brings_the_end_closer(s: BencherView, event: EventView)
    requires
        wf(s),
        fits(s.phase, event),
    ensures
        0 <= steps_left(next(s, event)) < steps_left(s),
        steps_left(s) <= 11 * plan(s.config).len() + 11 * s.config.revs.len() + 10,
{
    let c = s.config;
    let t = next(s, event);
    lemma_next_is_wf(s, event);
    lemma_done_is_within_plan(c, s.rev, s.file, s.mode);
    lemma_done_is_within_plan(c, t.rev, t.file, t.mode);
    assert(tags(s.data).len() == s.data.len());
    assert(tags(t.data).len() == t.data.len());
    if t.rev == s.rev + 1 {
        assert(rev_part(c, t.rev, 0) == Seq::<DatumView>::empty());
        assert(file_part(c, t.rev, 0, 0) == Seq::<DatumView>::empty());
        assert(done(c, t.rev, 0, 0).len() == revs_part(c, s.rev + 1).len());
    }
}

/// The sweep after the first `n` of the given events, if each of them
/// answered the action that the sweep asked for at its turn.
pub open spec fn replay(s: BencherView, events: Seq<EventView>, n: int) -> Option<BencherView>
    decreases n,
{
    if n <= 0 {
        Some(s)
    } else {
        match replay(s, events, n - 1) {
            Some(t) => if fits(t.phase, events[n - 1]) {
                Some(next(t, events[n - 1]))
            } else {
                None
            },
            None => None,
        }
    }
}

/// Whether the given events drive a sweep to its end, the last event
/// finishing it.
pub open spec fn completes(s: BencherView, events: Seq<EventView>) -> bool {
    replay(s, events, events.len() as int) matches Some(end) && end.phase is Finished
}

/// Taking events in changes neither what is swept nor the order of a sweep.
pub proof fn lemma_replay_is_wf(s: BencherView, events: Seq<EventView>, n: int)
    requires
        wf(s),
        0 <= n <= events.len(),
    ensures
        replay(s, events, n) matches Some(t) ==> wf(t) && t.config == s.config,
    decreases n,
{
    if n > 0 {
        lemma_replay_is_wf(s, events, n - 1);
        match replay(s, events, n - 1) {
            Some(t) => {
                if fits(t.phase, events[n - 1]) {
                    lemma_next_is_wf(t, events[n - 1]);
                }
            },
            None => {},
        }
    }
}

/// Once an event is refused, the events do not drive the sweep anywhere.
pub proof fn lemma_replay_stays_refused(s: BencherView, events: Seq<EventView>, m: int, n: int)
    requires
        0 <= m <= n,
        replay(s, events, m) is None,
    ensures
        replay(s, events, n) is None,
    decreases n - m,
{
    if m < n {
        lemma_replay_stays_refused(s, events, m, n - 1);
    }
}

/// The sweep after the four events of a revision whose only combination is
/// interpreted: a checkout that succeeds, a cache that holds the runtime, an
/// answer on the memory limit, and a run.
pub open spec fn after_one_run(s: BencherView, limit: bool, outcome: RunOutcome, output: Seq<char>) -> BencherView {
    next(
        next(next(next(s, EventView::Done), EventView::Found(true)), EventView::Ancestor(limit)),
        EventView::Ran { outcome, output },
    )
}

/// A revision whose only combination is interpreted takes four events, each
/// of which fits, and ends with one more result: that of its run.
pub proof fn lemma_revision_of_one_run(s: BencherView, limit: bool, outcome: RunOutcome, output: Seq<char>)
    requires
        s.phase is Checkout,
        0 <= s.rev < s.config.revs.len(),
        s.file == 0,
        s.mode == 0,
        s.config.files.len() == 1,
        s.config.modes.len() == 1,
        !s.config.modes[0].compiled,
    ensures
        fits(s.phase, EventView::Done),
        fits(next(s, EventView::Done).phase, EventView::Found(true)),
        fits(next(next(s, EventView::Done), EventView::Found(true)).phase, EventView::Ancestor(limit)),
        fits(
            next(next(next(s, EventView::Done), EventView::Found(true)), EventView::Ancestor(limit)).phase,
            EventView::Ran { outcome, output },
        ),
        after_one_run(s, limit, outcome, output) == next_rev(
            with_result(
                in_phase(s, Phase::Run { placeholder: false, memory: limit }),
                run_stats(outcome, output),
            ),
        ),
{
    let s1 = next(s, EventView::Done);
    assert(s1 == in_phase(s, Phase::FindRuntime));
    let s2 = next(s1, EventView::Found(true));
    assert(s2 == in_phase(s, Phase::AskMemory { placeholder: false }));
    let s3 = next(s2, EventView::Ancestor(limit));
    assert(s3 == in_phase(s, Phase::Run { placeholder: false, memory: limit }));
}

/// A sweep of two revisions, one file and one interpreted mode, where every
/// checkout succeeds and the cache holds the runtime, takes eight events and
/// ends with two results: each revision with the metrics of its own run, or
/// without metrics where its run has none.
pub proof fn lemma_sweep_of_two_revisions(
    c: ConfigView,
    first_limit: bool,
    first: RunOutcome,
    first_output: Seq<char>,
    second_limit: bool,
    second: RunOutcome,
    second_output: Seq<char>,
)
    requires
        c.revs.len() == 2,
        c.files.len() == 1,
        c.modes.len() == 1,
        !c.modes[0].compiled,
    ensures
        ({
            let events = seq![
                EventView::Done,
                EventView::Found(true),
                EventView::Ancestor(first_limit),
                EventView::Ran { outcome: first, output: first_output },
                EventView::Done,
                EventView::Found(true),
                EventView::Ancestor(second_limit),
                EventView::Ran { outcome: second, output: second_output },
            ];
            &&& completes(start(c), events)
            &&& replay(start(c), events, 8).unwrap().data == seq![
                datum_at(c, 0, 0, 0, run_stats(first, first_output)),
                datum_at(c, 1, 0, 0, run_stats(second, second_output)),
            ]
        }),
{
    let events = seq![
        EventView::Done,
        EventView::Found(true),
        EventView::Ancestor(first_limit),
        EventView::Ran { outcome: first, output: first_output },
        EventView::Done,
        EventView::Found(true),
        EventView::Ancestor(second_limit),
        EventView::Ran { outcome: second, output: second_output },
    ];
    let s0 = start(c);
    lemma_revision_of_one_run(s0, first_limit, first, first_output);
    let s1 = next(s0, events[0]);
    let s2 = next(s1, events[1]);
    let s3 = next(s2, events[2]);
    let s4 = next(s3, events[3]);
    assert(s4 == after_one_run(s0, first_limit, first, first_output));
    lemma_revision_of_one_run(s4, second_limit, second, second_output);
    let s5 = next(s4, events[4]);
    let s6 = next(s5, events[5]);
    let s7 = next(s6, events[6]);
    let s8 = next(s7, events[7]);
    assert(s8 == after_one_run(s4, second_limit, second, second_output));
    assert(replay(s0, events, 0) == Some(s0));
    assert(replay(s0, events, 1) == Some(s1));
    assert(replay(s0, events, 2) == Some(s2));
    assert(replay(s0, events, 3) == Some(s3));
    assert(replay(s0, events, 4) == Some(s4));
    assert(replay(s0, events, 5) == Some(s5));
    assert(replay(s0, events, 6) == Some(s6));
    assert(replay(s0, events, 7) == Some(s7));
    assert(replay(s0, events, 8) == Some(s8));
    assert(s8.phase is Finished);
    assert(s8.data =~= seq![
        datum_at(c, 0, 0, 0, run_stats(first, first_output)),
        datum_at(c, 1, 0, 0, run_stats(second, second_output)),
    ]);
}

/// The input files among the files found in a directory.
pub open spec fn inputs(found: Seq<FileView>) -> Seq<FileView> {
    found.filter(|f: FileView| is_input_name(f.name))
}

/// A cache that holds the artifact is taken at its word: nothing is built,
/// compiled or stored, and the sweep goes on with the same combination. A
/// cache that does not hold it has the artifact of the same key built or
/// compiled, whatever failed before.
pub proof fn lemma_cache_decides_build(s: BencherView, found: bool)
    requires
        wf(s),
        s.phase is FindRuntime || s.phase is FindBinary,
    ensures
        ({
            let t = next(s, EventView::Found(found));
            &&& found ==> !(action_of(t) is Build || action_of(t) is Compile || action_of(t) is Store)
            &&& !found && s.phase is FindRuntime ==> action_of(t) == (ActionView::Build {
                key: action_of(s)->Find_key,
                args: build_args(),
            })
            &&& !found && s.phase is FindBinary ==> action_of(t) == (ActionView::Compile {
                key: action_of(s)->Find_key,
                path: s.config.files[s.file].path,
                args: compile_args(),
            })
            &&& t.data == s.data
            &&& t.rev == s.rev
            &&& t.file == s.file
            &&& t.mode == s.mode
        }),
{
}

/// What a build or a compilation leaves goes into the cache only where the
/// process ended by itself with exit code 0, and then under the key that
/// was built. After any other end nothing is stored, so that the cache is
/// asked, and the artifact built, again at the next occasion.
pub proof fn lemma_only_good_builds_are_stored(s: BencherView, event: EventView)
    requires
        wf(s),
        s.phase is BuildRuntime || s.phase is CompileBinary,
        fits(s.phase, event),
    ensures
        ended_well(event) ==> action_of(next(s, event)) == (ActionView::Store {
            key: if s.phase is BuildRuntime {
                runtime_key(s)
            } else {
                binary_key(s)
            },
        }),
        !ended_well(event) ==> !(action_of(next(s, event)) is Store),
        !ended_well(event) ==> next(s, event) == record(s, None),
{
    if !ended_well(event) {
        lemma_next_is_wf(s, event);
    }
}

} // verus!
