//! What is run, and how: the command lines that a revision of the target
//! takes, the names under which built artifacts are kept, and what the end
//! of a run amounts to.

use vstd::prelude::*;
use crate::error::Error;
use crate::metrics::{
    first_capture, parse_output, rwts_count, stats_of, stats_view, time_reading, RWTS_PATTERN,
    TIME_PATTERN,
};
use crate::runner::RunOutcome;
use crate::text::{chars_of, slice_of, string_of, texts};
use crate::types::{Stats, StatsView, TimeUnit};

verus! {

/// The longest that one run may take, in seconds.
pub const MAX_TIME: u64 = 120;

/// The revision from which on the target takes a memory limit.
pub const REV_CLAP_CLI: &'static str = "0ba064c";

/// The revision from which on a compiled binary takes no placeholder.
pub const REV_PTR_REFACTOR: &'static str = "9bdbdcb";

/// The memory limit handed to the target.
pub const MEMORY_LIMIT: &'static str = "4G";

/// The name under which the cache keeps the runtime of a revision.
pub const RUNTIME_NAME: &'static str = "hvmc";

/// What a revision of the target may or may not be able to do. A revision
/// has a capability if the revision that introduced it is among its
/// ancestors.
#[derive(Debug, Clone, Copy, PartialEq, Eq, Structural)]
pub enum Capability {
    /// The command line takes a memory limit, `-m`.
    MemoryLimit,
    /// A compiled binary takes no placeholder argument any more.
    PointerRefactor,
}

/// The revision that introduced a capability.
pub open spec fn introduction(capability: Capability) -> Seq<char> {
    match capability {
        Capability::MemoryLimit => REV_CLAP_CLI@,
        Capability::PointerRefactor => REV_PTR_REFACTOR@,
    }
}

impl Capability {
    /// The revision that introduced this capability.
    pub fn introduced_at(&self) -> (rev: &'static str)
        ensures
            rev@ == introduction(*self),
    {
        match self {
            Capability::MemoryLimit => REV_CLAP_CLI,
            Capability::PointerRefactor => REV_PTR_REFACTOR,
        }
    }
}

/// What names a built artifact in the cache: the revision alone for the
/// runtime of a revision, the revision and a file for a compiled binary.
#[derive(Debug, Clone, PartialEq, Eq)]
pub struct ArtifactKey {
    pub rev: String,
    pub file: Option<String>,
}

/// The mathematical content of an [`ArtifactKey`].
pub struct KeyView {
    pub rev: Seq<char>,
    pub file: Option<Seq<char>>,
}

impl View for ArtifactKey {
    type V = KeyView;

    open spec fn view(&self) -> KeyView {
        KeyView {
            rev: self.rev@,
            file: match self.file {
                Some(f) => Some(f@),
                None => None,
            },
        }
    }
}

/// The place of the last `.` among the first `n` characters of `name`, or
/// -1 if there is none.
pub open spec fn last_dot(name: Seq<char>, n: int) -> int
    decreases n,
{
    if n <= 0 {
        -1
    } else if name[n - 1] == '.' {
        n - 1
    } else {
        last_dot(name, n - 1)
    }
}

/// A file name without its extension: what stands before the last `.`,
/// unless that `.` begins the name.
pub open spec fn stem_of(name: Seq<char>) -> Seq<char> {
    if last_dot(name, name.len() as int) >= 1 {
        name.take(last_dot(name, name.len() as int))
    } else {
        name
    }
}

/// The name under which the cache keeps an artifact, beside the others of
/// its revision: the runtime as `hvmc`, a binary as its file without the
/// extension.
pub open spec fn artifact_name(key: KeyView) -> Seq<char> {
    match key.file {
        None => RUNTIME_NAME@,
        Some(file) => stem_of(file),
    }
}

impl ArtifactKey {
    /// The name under which the cache keeps this artifact.
    pub fn name(&self) -> (name: String)
        ensures
            name@ == artifact_name(self@),
    {
        match &self.file {
            None => RUNTIME_NAME.to_owned(),
            Some(file) => {
                let chars = chars_of(file.as_str());
                let mut n: usize = chars.len();
                while n > 0 && chars[n - 1] != '.'
                    invariant
                        n <= chars.len(),
                        last_dot(chars@, chars.len() as int) == last_dot(chars@, n as int),
                    decreases n,
                {
                    n -= 1;
                }
                if n >= 2 {
                    string_of(&slice_of(&chars, 0, n - 1))
                } else {
                    file.clone()
                }
            },
        }
    }
}

/// The arguments with which the build tool builds the runtime.
pub open spec fn build_args() -> Seq<Seq<char>> {
    seq!["build"@, "--release"@]
}

/// The arguments with which the runtime compiles an input; the input
/// follows them.
pub open spec fn compile_args() -> Seq<Seq<char>> {
    seq!["compile"@]
}

/// The arguments with which the build tool builds the runtime.
pub fn build() -> (args: Vec<String>)
    ensures
        texts(args@) == build_args(),
{
    let mut args: Vec<String> = Vec::new();
    args.push("build".to_owned());
    args.push("--release".to_owned());
    assert(texts(args@) == build_args());
    args
}

/// The arguments with which the runtime compiles an input.
pub fn compile() -> (args: Vec<String>)
    ensures
        texts(args@) == compile_args(),
{
    let mut args: Vec<String> = Vec::new();
    args.push("compile".to_owned());
    assert(texts(args@) == compile_args());
    args
}

/// The arguments of an interpreted run: `run`, the file, the memory limit
/// where the revision takes one, `-1` for a single thread, and `-s`.
pub open spec fn interpreted_args(path: Seq<char>, multi: bool, memory: bool) -> Seq<Seq<char>> {
    seq!["run"@, path] + (if memory { seq!["-m"@, MEMORY_LIMIT@] } else { Seq::empty() }) + (if multi {
        Seq::empty()
    } else {
        seq!["-1"@]
    }) + seq!["-s"@]
}

/// The arguments of a compiled binary: the placeholder `_` where the
/// revision still takes it, `-s`, `-1` where `single` is set, and the memory
/// limit where the revision takes one.
pub open spec fn compiled_args(single: bool, placeholder: bool, memory: bool) -> Seq<Seq<char>> {
    (if placeholder { seq!["_"@] } else { Seq::empty() }) + seq!["-s"@] + (if single {
        seq!["-1"@]
    } else {
        Seq::empty()
    }) + (if memory { seq!["-m"@, MEMORY_LIMIT@] } else { Seq::empty() })
}

/// The arguments of an interpreted run.
pub fn bench_interpreted(path: &str, multi: bool, memory: bool) -> (args: Vec<String>)
    ensures
        texts(args@) == interpreted_args(path@, multi, memory),
{
    let mut args: Vec<String> = Vec::new();
    args.push("run".to_owned());
    args.push(path.to_owned());
    if memory {
        args.push("-m".to_owned());
        args.push(MEMORY_LIMIT.to_owned());
    }
    if !multi {
        args.push("-1".to_owned());
    }
    args.push("-s".to_owned());
    assert(texts(args@) == interpreted_args(path@, multi, memory));
    args
}

/// The arguments of a compiled binary.
pub fn bench_compiled(single: bool, placeholder: bool, memory: bool) -> (args: Vec<String>)
    ensures
        texts(args@) == compiled_args(single, placeholder, memory),
{
    let mut args: Vec<String> = Vec::new();
    if placeholder {
        args.push("_".to_owned());
    }
    args.push("-s".to_owned());
    if single {
        args.push("-1".to_owned());
    }
    if memory {
        args.push("-m".to_owned());
        args.push(MEMORY_LIMIT.to_owned());
    }
    assert(texts(args@) == compiled_args(single, placeholder, memory));
    args
}

/// The metrics of a run, as its result records them: those read from the
/// output where the process ended by itself with exit code 0 and the output
/// holds both fields well formed; none otherwise.
pub open spec fn run_stats(outcome: RunOutcome, output: Seq<char>) -> Option<StatsView> {
    match outcome {
        RunOutcome::Exited(code) => if code == 0 {
            match stats_of(first_capture(TIME_PATTERN@, output), first_capture(RWTS_PATTERN@, output)) {
                Ok(stats) => Some(stats),
                Err(_) => None,
            }
        } else {
            None
        },
        RunOutcome::TimedOut => None,
    }
}

/// A run that ended by itself with exit code 0 has the metrics that its two
/// fields write, where the search finds both in the output and both are well
/// formed.
pub proof fn lemma_metrics_of_a_run(
    output: Seq<char>,
    time: Seq<char>,
    rwts: Seq<char>,
    number: Seq<char>,
    unit: TimeUnit,
    count: nat,
)
    requires
        first_capture(TIME_PATTERN@, output) == Some(time),
        first_capture(RWTS_PATTERN@, output) == Some(rwts),
        time_reading(time) == Some((number, unit)),
        rwts_count(rwts) == Some(count),
    ensures
        run_stats(RunOutcome::Exited(0), output) == Some(StatsView { number, unit, rwts: count as u64 }),
{
}

/// A run has no metrics where the search finds no time or no count in its
/// output, however it ended.
pub proof fn lemma_no_metrics_without_fields(outcome: RunOutcome, output: Seq<char>)
    requires
        first_capture(TIME_PATTERN@, output) is None || first_capture(RWTS_PATTERN@, output) is None,
    ensures
        run_stats(outcome, output) is None,
{
}

/// What a run amounts to: its metrics, or the reason why it has none. A run
/// that timed out or ended with a non-zero exit code has failed whatever it
/// printed; the latter error holds the output.
pub fn run_result(outcome: RunOutcome, output: &str) -> (res: Result<Stats, Error>)
    ensures
        match outcome {
            RunOutcome::TimedOut => res == Err::<Stats, Error>(Error::ProcessTimedOut),
            RunOutcome::Exited(code) => if code == 0 {
                stats_view(res) == stats_of(
                    first_capture(TIME_PATTERN@, output@),
                    first_capture(RWTS_PATTERN@, output@),
                )
            } else {
                res matches Err(Error::ProcessNonZeroExit(text)) && text@ == output@
            },
        },
        match res {
            Ok(stats) => run_stats(outcome, output@) == Some(stats@),
            Err(_) => run_stats(outcome, output@) is None,
        },
{
    match outcome {
        RunOutcome::TimedOut => Err(Error::ProcessTimedOut),
        RunOutcome::Exited(code) => {
            if code == 0 {
                parse_output(output)
            } else {
                Err(Error::ProcessNonZeroExit(output.to_owned()))
            }
        },
    }
}

} // verus!
