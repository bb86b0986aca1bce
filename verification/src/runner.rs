//! Running one process under a deadline: what to do with the process next,
//! and what the run amounts to in the end.
//!
//! A [`Runner`] starts nothing itself. It names the next [`RunnerAction`];
//! the caller carries it out and reports a [`RunnerEvent`]. A process that
//! is still running when the deadline has passed is killed; what it wrote on
//! its two streams is read in either case, the standard output first.

use vstd::prelude::*;
use crate::text::push_text;

verus! {

/// How a process ended.
#[derive(Debug, Clone, Copy, PartialEq, Eq, Structural)]
pub enum RunOutcome {
    /// It ended by itself, with this exit code.
    Exited(i32),
    /// It ran past the deadline and was killed.
    TimedOut,
}

/// One of the two streams on which a process writes.
#[derive(Debug, Clone, Copy, PartialEq, Eq, Structural)]
pub enum Stream {
    Stdout,
    Stderr,
}

/// What the caller is asked to do with the process.
#[derive(Debug, Clone, Copy, PartialEq, Eq, Structural)]
pub enum RunnerAction {
    /// Start the process, both of its streams captured.
    Spawn,
    /// Wait until the process has ended, but for `seconds` at most.
    Wait { seconds: u64 },
    /// Kill the process.
    Kill,
    /// Read what the process wrote on the stream, to its end.
    Read { stream: Stream },
    /// Nothing: the run is over.
    Finish,
}

/// What the caller reports of an action.
#[derive(Debug, Clone, PartialEq, Eq)]
pub enum RunnerEvent {
    /// The action could not be carried out.
    Failed,
    /// The process was started.
    Spawned,
    /// The process ended within the time, with this exit code.
    Exited(i32),
    /// The time has passed and the process is still running.
    TimedOut,
    /// The process was killed.
    Killed,
    /// What was read from the stream.
    Read(String),
}

/// Where a run stands.
#[derive(Debug, Clone, Copy, PartialEq, Eq, Structural)]
pub enum RunnerPhase {
    /// The process is to be started.
    Spawn,
    /// The process runs and is waited for.
    Wait,
    /// The process has run past the deadline and is to be killed.
    Kill,
    /// The process has ended as `outcome` says; `stream` is to be read.
    Read { stream: Stream, outcome: RunOutcome },
    /// The run is over: with an outcome, or without one where an action
    /// could not be carried out.
    Done { outcome: Option<RunOutcome> },
}

/// The mathematical content of a [`RunnerEvent`].
pub enum RunnerEventView {
    Failed,
    Spawned,
    Exited(i32),
    TimedOut,
    Killed,
    Read(Seq<char>),
}

/// The mathematical content of a [`Runner`].
pub struct RunnerView {
    /// The longest that the process may run, in seconds.
    pub deadline: u64,
    pub phase: RunnerPhase,
    /// What was read so far.
    pub output: Seq<char>,
}

impl View for RunnerEvent {
    type V = RunnerEventView;

    open spec fn view(&self) -> RunnerEventView {
        match self {
            RunnerEvent::Failed => RunnerEventView::Failed,
            RunnerEvent::Spawned => RunnerEventView::Spawned,
            RunnerEvent::Exited(code) => RunnerEventView::Exited(*code),
            RunnerEvent::TimedOut => RunnerEventView::TimedOut,
            RunnerEvent::Killed => RunnerEventView::Killed,
            RunnerEvent::Read(text) => RunnerEventView::Read(text@),
        }
    }
}

/// A run before anything was done.
pub open spec fn fresh(deadline: u64) -> RunnerView {
    RunnerView { deadline, phase: RunnerPhase::Spawn, output: Seq::empty() }
}

/// What a run asks for in its phase.
pub open spec fn asked(s: RunnerView) -> RunnerAction {
    match s.phase {
        RunnerPhase::Spawn => RunnerAction::Spawn,
        RunnerPhase::Wait => RunnerAction::Wait { seconds: s.deadline },
        RunnerPhase::Kill => RunnerAction::Kill,
        RunnerPhase::Read { stream, .. } => RunnerAction::Read { stream },
        RunnerPhase::Done { .. } => RunnerAction::Finish,
    }
}

/// Whether an event answers the action of a phase.
pub open spec fn answers(phase: RunnerPhase, event: RunnerEventView) -> bool {
    match phase {
        RunnerPhase::Spawn => event is Spawned || event is Failed,
        RunnerPhase::Wait => event is Exited || event is TimedOut || event is Failed,
        RunnerPhase::Kill => event is Killed || event is Failed,
        RunnerPhase::Read { .. } => event is Read || event is Failed,
        RunnerPhase::Done { .. } => false,
    }
}

/// The run after an event that answers its action. An action that could
/// not be carried out ends the run without an outcome.
pub open spec fn after(s: RunnerView, event: RunnerEventView) -> RunnerView {
    match (s.phase, event) {
        (RunnerPhase::Spawn, RunnerEventView::Spawned) => RunnerView { phase: RunnerPhase::Wait, ..s },
        (RunnerPhase::Wait, RunnerEventView::Exited(code)) => RunnerView {
            phase: RunnerPhase::Read { stream: Stream::Stdout, outcome: RunOutcome::Exited(code) },
            ..s
        },
        (RunnerPhase::Wait, RunnerEventView::TimedOut) => RunnerView { phase: RunnerPhase::Kill, ..s },
        (RunnerPhase::Kill, RunnerEventView::Killed) => RunnerView {
            phase: RunnerPhase::Read { stream: Stream::Stdout, outcome: RunOutcome::TimedOut },
            ..s
        },
        (RunnerPhase::Read { stream: Stream::Stdout, outcome }, RunnerEventView::Read(text)) => RunnerView {
            phase: RunnerPhase::Read { stream: Stream::Stderr, outcome },
            output: s.output + text,
            ..s
        },
        (RunnerPhase::Read { stream: Stream::Stderr, outcome }, RunnerEventView::Read(text)) => RunnerView {
            phase: RunnerPhase::Done { outcome: Some(outcome) },
            output: s.output + text,
            ..s
        },
        (RunnerPhase::Done { .. }, _) => s,
        _ => RunnerView { phase: RunnerPhase::Done { outcome: None }, ..s },
    }
}

/// What a run amounts to once it is over: how the process ended and what it
/// wrote; nothing while the run goes on or where an action could not be
/// carried out.
pub open spec fn result_of(s: RunnerView) -> Option<(RunOutcome, Seq<char>)> {
    match s.phase {
        RunnerPhase::Done { outcome: Some(outcome) } => Some((outcome, s.output)),
        _ => None,
    }
}

/// A process that ends within the time is not killed, and the run amounts to
/// its exit code and all that it wrote: the standard output, then the
/// standard error.
pub proof fn lemma_run_that_ends(deadline: u64, code: i32, out: Seq<char>, err: Seq<char>)
    ensures
        ({
            let started = after(fresh(deadline), RunnerEventView::Spawned);
            let ended = after(started, RunnerEventView::Exited(code));
            let read = after(ended, RunnerEventView::Read(out));
            let over = after(read, RunnerEventView::Read(err));
            &&& asked(fresh(deadline)) == RunnerAction::Spawn
            &&& asked(started) == (RunnerAction::Wait { seconds: deadline })
            &&& asked(ended) == (RunnerAction::Read { stream: Stream::Stdout })
            &&& asked(read) == (RunnerAction::Read { stream: Stream::Stderr })
            &&& asked(over) == RunnerAction::Finish
            &&& result_of(over) == Some((RunOutcome::Exited(code), out + err))
        }),
{
    assert(Seq::<char>::empty() + out + err == out + err);
}

/// A process that runs past the deadline is killed, and the run still
/// amounts to something: that it timed out, and what the process had
/// written until then.
pub proof fn lemma_run_past_the_deadline(deadline: u64, out: Seq<char>, err: Seq<char>)
    ensures
        ({
            let started = after(fresh(deadline), RunnerEventView::Spawned);
            let late = after(started, RunnerEventView::TimedOut);
            let killed = after(late, RunnerEventView::Killed);
            let read = after(killed, RunnerEventView::Read(out));
            let over = after(read, RunnerEventView::Read(err));
            &&& asked(started) == (RunnerAction::Wait { seconds: deadline })
            &&& asked(late) == RunnerAction::Kill
            &&& asked(killed) == (RunnerAction::Read { stream: Stream::Stdout })
            &&& asked(read) == (RunnerAction::Read { stream: Stream::Stderr })
            &&& asked(over) == RunnerAction::Finish
            &&& result_of(over) == Some((RunOutcome::TimedOut, out + err))
        }),
{
    assert(Seq::<char>::empty() + out + err == out + err);
}

/// How far a phase is from the end of a run.
pub open spec fn actions_left(phase: RunnerPhase) -> nat {
    match phase {
        RunnerPhase::Spawn => 5,
        RunnerPhase::Wait => 4,
        RunnerPhase::Kill => 3,
        RunnerPhase::Read { stream: Stream::Stdout, .. } => 2,
        RunnerPhase::Read { stream: Stream::Stderr, .. } => 1,
        RunnerPhase::Done { .. } => 0,
    }
}

/// Every event brings the end of a run closer: a run takes five actions at
/// most. Only a process that ends or is killed gets an outcome, and nothing
/// is read from a process that still runs.
pub proof fn lemma_run_goes_on(s: RunnerView, event: RunnerEventView)
    requires
        answers(s.phase, event),
    ensures
        actions_left(after(s, event).phase) < actions_left(s.phase),
        after(s, event).deadline == s.deadline,
        after(s, event).phase is Read ==> s.phase is Read || event is Exited || event is Killed,
{
}

/// A run of one process.
#[derive(Debug, Clone, PartialEq, Eq)]
pub struct Runner {
    deadline: u64,
    phase: RunnerPhase,
    output: String,
}

impl View for Runner {
    type V = RunnerView;

    closed spec fn view(&self) -> RunnerView {
        RunnerView { deadline: self.deadline, phase: self.phase, output: self.output@ }
    }
}

impl Runner {
    /// A run under a deadline of so many seconds, before anything was done.
    pub fn new(deadline: u64) -> (r: Runner)
        ensures
            r@ == fresh(deadline),
    {
        Runner { deadline, phase: RunnerPhase::Spawn, output: String::new() }
    }

    /// What is to be done next.
    pub fn action(&self) -> (a: RunnerAction)
        ensures
            a == asked(self@),
    {
        match self.phase {
            RunnerPhase::Spawn => RunnerAction::Spawn,
            RunnerPhase::Wait => RunnerAction::Wait { seconds: self.deadline },
            RunnerPhase::Kill => RunnerAction::Kill,
            RunnerPhase::Read { stream, .. } => RunnerAction::Read { stream },
            RunnerPhase::Done { .. } => RunnerAction::Finish,
        }
    }

    /// Whether `event` answers the action of this run.
    pub fn accepts(&self, event: &RunnerEvent) -> (yes: bool)
        ensures
            yes == answers(self@.phase, event@),
    {
        match self.phase {
            RunnerPhase::Spawn => match event {
                RunnerEvent::Spawned | RunnerEvent::Failed => true,
                _ => false,
            },
            RunnerPhase::Wait => match event {
                RunnerEvent::Exited(_) | RunnerEvent::TimedOut | RunnerEvent::Failed => true,
                _ => false,
            },
            RunnerPhase::Kill => match event {
                RunnerEvent::Killed | RunnerEvent::Failed => true,
                _ => false,
            },
            RunnerPhase::Read { .. } => match event {
                RunnerEvent::Read(_) | RunnerEvent::Failed => true,
                _ => false,
            },
            RunnerPhase::Done { .. } => false,
        }
    }

    /// Takes in what happened to the action of this run and moves on. An
    /// event that does not answer the action is refused and changes nothing.
    pub fn step(&mut self, event: &RunnerEvent) -> (accepted: bool)
        ensures
            accepted == answers(old(self)@.phase, event@),
            final(self)@ == if accepted {
                after(old(self)@, event@)
            } else {
                old(self)@
            },
    {
        if !self.accepts(event) {
            return false;
        }
        match self.phase {
            RunnerPhase::Spawn => match event {
                RunnerEvent::Spawned => {
                    self.phase = RunnerPhase::Wait;
                },
                _ => {
                    self.phase = RunnerPhase::Done { outcome: None };
                },
            },
            RunnerPhase::Wait => match event {
                RunnerEvent::Exited(code) => {
                    self.phase = RunnerPhase::Read {
                        stream: Stream::Stdout,
                        outcome: RunOutcome::Exited(*code),
                    };
                },
                RunnerEvent::TimedOut => {
                    self.phase = RunnerPhase::Kill;
                },
                _ => {
                    self.phase = RunnerPhase::Done { outcome: None };
                },
            },
            RunnerPhase::Kill => match event {
                RunnerEvent::Killed => {
                    self.phase = RunnerPhase::Read { stream: Stream::Stdout, outcome: RunOutcome::TimedOut };
                },
                _ => {
                    self.phase = RunnerPhase::Done { outcome: None };
                },
            },
            RunnerPhase::Read { stream, outcome } => match event {
                RunnerEvent::Read(text) => {
                    push_text(&mut self.output, text.as_str());
                    self.phase = match stream {
                        Stream::Stdout => RunnerPhase::Read { stream: Stream::Stderr, outcome },
                        Stream::Stderr => RunnerPhase::Done { outcome: Some(outcome) },
                    };
                },
                _ => {
                    self.phase = RunnerPhase::Done { outcome: None };
                },
            },
            RunnerPhase::Done { .. } => {},
        }
        true
    }

    /// Whether the run is over.
    pub fn finished(&self) -> (yes: bool)
        ensures
            yes == (self@.phase is Done),
    {
        match self.phase {
            RunnerPhase::Done { .. } => true,
            _ => false,
        }
    }

    /// What the run amounts to: how the process ended, and what it wrote.
    pub fn result(&self) -> (res: Option<(RunOutcome, String)>)
        ensures
            match res {
                Some((outcome, output)) => result_of(self@) == Some((outcome, output@)),
                None => result_of(self@) is None,
            },
    {
        match self.phase {
            RunnerPhase::Done { outcome: Some(outcome) } => Some((outcome, self.output.clone())),
            _ => None,
        }
    }
}

} // verus!
