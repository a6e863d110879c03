//! One task: a command, the history of its executions, the executions that
//! still run, and the statistics of those that ended.

use crate::command::{
    clone_optional, Command, CommandModel, CommandOutcome, Log, LogModel, OutcomeModel,
    OutputModel, TaskOutput,
};
use crate::text::{decimal_chars, decimal_string, join_path, joined_path};
use vstd::prelude::*;
use vstd::string::*;

verus! {

/// What the recorded executions of a task add up to.
pub struct Tally {
    /// How many failed.
    pub errors: nat,
    /// How many ran to their end.
    pub successes: nat,
    /// The time that those took together, in nanoseconds.
    pub time: nat,
}

impl Tally {
    /// The tally of no execution.
    pub open spec fn zero() -> Tally {
        Tally { errors: 0, successes: 0, time: 0 }
    }

    /// What one slot adds: a slot that waits adds nothing.
    pub open spec fn of(slot: OutputModel) -> Tally {
        match slot {
            OutputModel::NoError(outcome) => Tally {
                errors: 0,
                successes: 1,
                time: outcome.duration as nat,
            },
            OutputModel::Waiting => Tally::zero(),
            _ => Tally { errors: 1, successes: 0, time: 0 },
        }
    }

    /// The sum of two tallies.
    pub open spec fn plus(self, other: Tally) -> Tally {
        Tally {
            errors: self.errors + other.errors,
            successes: self.successes + other.successes,
            time: self.time + other.time,
        }
    }

    /// The tally of all the slots of a history.
    pub open spec fn of_all(slots: Seq<OutputModel>) -> Tally
        decreases slots.len(),
    {
        if slots.len() == 0 {
            Tally::zero()
        } else {
            Tally::of_all(slots.drop_last()).plus(Tally::of(slots.last()))
        }
    }

    /// A new slot adds its own tally.
    pub proof fn lemma_push(slots: Seq<OutputModel>, slot: OutputModel)
        ensures
            Tally::of_all(slots.push(slot)) == Tally::of_all(slots).plus(Tally::of(slot)),
    {
        assert(slots.push(slot).drop_last() =~= slots);
    }

    /// Changing one slot takes its old tally out and puts the new one in.
    pub proof fn lemma_update(slots: Seq<OutputModel>, i: int, slot: OutputModel)
        requires
            0 <= i < slots.len(),
        ensures
            Tally::of_all(slots.update(i, slot)).plus(Tally::of(slots[i])) == Tally::of_all(
                slots,
            ).plus(Tally::of(slot)),
        decreases slots.len(),
    {
        if i == slots.len() - 1 {
            assert(slots.update(i, slot).drop_last() =~= slots.drop_last());
        } else {
            Tally::lemma_update(slots.drop_last(), i, slot);
            assert(slots.update(i, slot).drop_last() =~= slots.drop_last().update(i, slot));
        }
    }

    /// No more executions are tallied than there are slots, and none took
    /// longer than 64 bits of nanoseconds can say.
    pub proof fn lemma_bounds(slots: Seq<OutputModel>)
        ensures
            Tally::of_all(slots).errors + Tally::of_all(slots).successes <= slots.len(),
            Tally::of_all(slots).time <= Tally::of_all(slots).successes * u64::MAX,
        decreases slots.len(),
    {
        if slots.len() > 0 {
            Tally::lemma_bounds(slots.drop_last());
            let rest = Tally::of_all(slots.drop_last());
            let one = Tally::of(slots.last());
            assert(rest.time + one.time <= (rest.successes + one.successes) * u64::MAX)
                by (nonlinear_arith)
                requires
                    rest.time <= rest.successes * u64::MAX,
                    one.time <= one.successes * u64::MAX,
            ;
        }
    }
}

/// The statistics of a task: how many executions were recorded, how many
/// of them failed, and how long the others ran together, in nanoseconds.
#[derive(Clone, Copy, Debug, PartialEq, Eq, Structural)]
pub struct TaskStatistic {
    pub count: usize,
    pub error_count: usize,
    pub total_duration: u128,
}

impl Default for TaskStatistic {
    fn default() -> (stats: TaskStatistic)
        ensures
            stats == (TaskStatistic { count: 0, error_count: 0, total_duration: 0 }),
    {
        TaskStatistic { count: 0, error_count: 0, total_duration: 0 }
    }
}

impl TaskStatistic {
    /// The number of recorded executions that ran to their end.
    pub open spec fn successes(self) -> nat {
        if self.error_count <= self.count {
            (self.count - self.error_count) as nat
        } else {
            0
        }
    }

    /// The mean running time of the executions that ran to their end, in
    /// whole nanoseconds, rounded down; zero if there is none.
    pub open spec fn average(self) -> nat {
        if self.successes() == 0 {
            0
        } else {
            self.total_duration as nat / self.successes()
        }
    }

    /// The statistics after one more execution, which ended as `slot`: it
    /// counts, and either its running time is added or it counts as failed.
    pub open spec fn recorded(self, slot: OutputModel) -> TaskStatistic {
        match slot {
            OutputModel::NoError(outcome) => TaskStatistic {
                count: (self.count + 1) as usize,
                error_count: self.error_count,
                total_duration: (self.total_duration + outcome.duration) as u128,
            },
            _ => TaskStatistic {
                count: (self.count + 1) as usize,
                error_count: (self.error_count + 1) as usize,
                total_duration: self.total_duration,
            },
        }
    }

    /// Whether the statistics are those of the history `slots`.
    pub open spec fn tallies(self, slots: Seq<OutputModel>) -> bool {
        let t = Tally::of_all(slots);
        &&& self.error_count == t.errors
        &&& self.count == t.errors + t.successes
        &&& self.total_duration == t.time
    }

    /// Records one more execution, which ended as `output`.
    pub fn record(&mut self, output: &TaskOutput)
        requires
            old(self).count < usize::MAX,
            old(self).error_count < usize::MAX,
            old(self).total_duration + u64::MAX <= u128::MAX,
        ensures
            *final(self) == old(self).recorded(output.deep_view()),
    {
        match output {
            TaskOutput::NoError(outcome) => {
                self.total_duration = self.total_duration + outcome.duration as u128;
            },
            _ => {
                self.error_count = self.error_count + 1;
            },
        }
        self.count = self.count + 1;
    }

    /// The mean running time of the executions that ran to their end, in
    /// whole nanoseconds, rounded down; zero if there is none.
    pub fn average_duration(&self) -> (mean: u128)
        ensures
            mean == self.average(),
    {
        if self.error_count >= self.count {
            0
        } else {
            self.total_duration / (self.count - self.error_count) as u128
        }
    }
}

/// What a task is told to run, and how.
#[derive(Debug, PartialEq, Eq)]
pub struct TaskConfig {
    pub cmd: Command,
    /// How many executions may run at once; no limit if absent.
    pub max_concurrent_execution: Option<usize>,
    /// The directory for the captured standard output, once assigned.
    pub stdout_path: Option<String>,
    /// The directory for the captured standard error, once assigned.
    pub stderr_path: Option<String>,
}

/// The value of a [`TaskConfig`].
pub struct ConfigModel {
    pub cmd: CommandModel,
    pub max_concurrent_execution: Option<usize>,
    pub stdout_path: Option<Seq<char>>,
    pub stderr_path: Option<Seq<char>>,
}

impl DeepView for TaskConfig {
    type V = ConfigModel;

    open spec fn deep_view(&self) -> ConfigModel {
        ConfigModel {
            cmd: self.cmd.deep_view(),
            max_concurrent_execution: self.max_concurrent_execution,
            stdout_path: self.stdout_path.deep_view(),
            stderr_path: self.stderr_path.deep_view(),
        }
    }
}

impl Clone for TaskConfig {
    fn clone(&self) -> (r: TaskConfig)
        ensures
            r.deep_view() == self.deep_view(),
    {
        TaskConfig {
            cmd: self.cmd.clone(),
            max_concurrent_execution: self.max_concurrent_execution,
            stdout_path: clone_optional(&self.stdout_path),
            stderr_path: clone_optional(&self.stderr_path),
        }
    }
}

impl ConfigModel {
    /// The configuration with its two log directories under `path`: `out`
    /// for the standard output, `err` for the standard error.
    pub open spec fn with_log_path(self, path: Seq<char>) -> ConfigModel {
        ConfigModel {
            stdout_path: Some(joined_path(path, "out"@)),
            stderr_path: Some(joined_path(path, "err"@)),
            ..self
        }
    }
}

/// How the attempt to write one captured stream to its file ended.
#[derive(Debug, PartialEq, Eq)]
pub enum WriteResult {
    /// Nothing was written.
    Skipped,
    /// The file holds the stream.
    Written,
    /// The write failed; the text is the system's message.
    Failed(String),
}

/// The value of a [`WriteResult`].
pub enum WriteModel {
    Skipped,
    Written,
    Failed(Seq<char>),
}

impl DeepView for WriteResult {
    type V = WriteModel;

    open spec fn deep_view(&self) -> WriteModel {
        match self {
            WriteResult::Skipped => WriteModel::Skipped,
            WriteResult::Written => WriteModel::Written,
            WriteResult::Failed(message) => WriteModel::Failed(message@),
        }
    }
}

/// The report of one worker: the slot that it ran for, what it returned,
/// and how writing its two streams to their files ended.
#[derive(Debug, PartialEq, Eq)]
pub struct Finished {
    pub slot: usize,
    pub output: TaskOutput,
    pub stdout: WriteResult,
    pub stderr: WriteResult,
}

/// The value of a [`Finished`].
pub struct FinishedModel {
    pub slot: usize,
    pub output: OutputModel,
    pub stdout: WriteModel,
    pub stderr: WriteModel,
}

impl DeepView for Finished {
    type V = FinishedModel;

    open spec fn deep_view(&self) -> FinishedModel {
        FinishedModel {
            slot: self.slot,
            output: self.output.deep_view(),
            stdout: self.stdout.deep_view(),
            stderr: self.stderr.deep_view(),
        }
    }
}

/// What became of a launch.
#[derive(Clone, Copy, Debug, PartialEq, Eq, Structural)]
pub enum Launch {
    /// A worker is to run the command for `slot`. `crowded` says that nine
    /// tenths of the allowed executions, rounded down, ran already.
    Started { slot: usize, crowded: bool },
    /// The task ran as many executions as it may: `slot` records the
    /// refusal, and no worker is to run.
    Rejected { slot: usize },
}

/// The files into which the two streams of one execution are to be
/// written; `None` for a stream that is not to be written.
#[derive(Debug, PartialEq, Eq)]
pub struct LogPlan {
    pub stdout: Option<String>,
    pub stderr: Option<String>,
}

impl LogPlan {
    /// Whether the standard error is still to be written once the write of
    /// the standard output has ended as `stdout`: it has a file to go to,
    /// and the standard output did not fail.
    pub fn stderr_due(&self, stdout: &WriteResult) -> (due: bool)
        ensures
            due == (self.stderr.is_some() && !(stdout is Failed)),
    {
        match (&self.stderr, stdout) {
            (Some(_), WriteResult::Failed(_)) => false,
            (Some(_), _) => true,
            (None, _) => false,
        }
    }
}

/// The file of slot `slot` in the directory `dir`: its name is the slot's
/// decimal numeral.
pub open spec fn log_file(dir: Seq<char>, slot: usize) -> Seq<char> {
    joined_path(dir, decimal_chars(slot as nat))
}

/// The file into which a stream is to be written: the slot's file, if a
/// directory is assigned and the stream is held in memory.
pub open spec fn log_target(dir: Option<Seq<char>>, slot: usize, log: LogModel) -> Option<
    Seq<char>,
> {
    match (dir, log) {
        (Some(d), LogModel::Buffer(_)) => Some(log_file(d, slot)),
        _ => None,
    }
}

/// What becomes of a stream once the write is reported: where a write was
/// due, the file if it was written and the error's message if it failed;
/// the stream as it was otherwise.
pub open spec fn log_persisted(
    dir: Option<Seq<char>>,
    slot: usize,
    log: LogModel,
    written: WriteModel,
) -> Result<LogModel, Seq<char>> {
    match log_target(dir, slot, log) {
        Some(file) => match written {
            WriteModel::Written => Ok(LogModel::File(file)),
            WriteModel::Failed(message) => Err(message),
            WriteModel::Skipped => Ok(log),
        },
        None => Ok(log),
    }
}

impl ConfigModel {
    /// The files into which the streams of `output`, returned for `slot`,
    /// are to be written.
    pub open spec fn log_plan(self, slot: usize, output: OutputModel) -> (
        Option<Seq<char>>,
        Option<Seq<char>>,
    ) {
        match output {
            OutputModel::NoError(outcome) => (
                log_target(self.stdout_path, slot, outcome.stdout),
                log_target(self.stderr_path, slot, outcome.stderr),
            ),
            _ => (None, None),
        }
    }

    /// What a slot records for a report: the worker's output, each stream
    /// that was written replaced by its file. A write that failed turns the
    /// whole record into an `IOError`, the standard output first.
    pub open spec fn persisted(self, report: FinishedModel) -> OutputModel {
        match report.output {
            OutputModel::NoError(outcome) => match log_persisted(
                self.stdout_path,
                report.slot,
                outcome.stdout,
                report.stdout,
            ) {
                Err(message) => OutputModel::IOError(message),
                Ok(stdout) => match log_persisted(
                    self.stderr_path,
                    report.slot,
                    outcome.stderr,
                    report.stderr,
                ) {
                    Err(message) => OutputModel::IOError(message),
                    Ok(stderr) => OutputModel::NoError(OutcomeModel { stdout, stderr, ..outcome }),
                },
            },
            other => other,
        }
    }
}

/// The file into which a stream is to be written, if any.
fn plan_log(dir: &Option<String>, slot: usize, log: &Log) -> (target: Option<String>)
    ensures
        target.deep_view() == log_target(dir.deep_view(), slot, log.deep_view()),
{
    match (dir, log) {
        (Some(d), Log::Buffer(_)) => {
            let name = decimal_string(slot);
            Some(join_path(d.as_str(), name.as_str()))
        },
        _ => None,
    }
}

/// What becomes of a stream once the write is reported.
fn persist_log(dir: &Option<String>, slot: usize, log: Log, written: WriteResult) -> (r: Result<
    Log,
    String,
>)
    ensures
        match r {
            Ok(l) => log_persisted(dir.deep_view(), slot, log.deep_view(), written.deep_view())
                == Ok::<LogModel, Seq<char>>(l.deep_view()),
            Err(m) => log_persisted(dir.deep_view(), slot, log.deep_view(), written.deep_view())
                == Err::<LogModel, Seq<char>>(m@),
        },
{
    match plan_log(dir, slot, &log) {
        Some(file) => match written {
            WriteResult::Written => Ok(Log::File(file)),
            WriteResult::Failed(message) => Err(message),
            WriteResult::Skipped => Ok(log),
        },
        None => Ok(log),
    }
}

impl TaskConfig {
    /// The files into which the streams of `output`, returned for `slot`,
    /// are to be written.
    pub fn log_plan(&self, slot: usize, output: &TaskOutput) -> (plan: LogPlan)
        ensures
            (plan.stdout.deep_view(), plan.stderr.deep_view()) == self.deep_view().log_plan(
                slot,
                output.deep_view(),
            ),
    {
        match output {
            TaskOutput::NoError(outcome) => LogPlan {
                stdout: plan_log(&self.stdout_path, slot, &outcome.stdout),
                stderr: plan_log(&self.stderr_path, slot, &outcome.stderr),
            },
            _ => LogPlan { stdout: None, stderr: None },
        }
    }

    /// What a slot records for a report.
    pub fn update_log(&self, report: Finished) -> (output: TaskOutput)
        ensures
            output.deep_view() == self.deep_view().persisted(report.deep_view()),
    {
        let Finished { slot, output, stdout, stderr } = report;
        match output {
            TaskOutput::NoError(outcome) => {
                let CommandOutcome { exit_status, stdout: out, stderr: err, start, duration } =
                    outcome;
                match persist_log(&self.stdout_path, slot, out, stdout) {
                    Err(message) => TaskOutput::IOError(message),
                    Ok(stdout) => match persist_log(&self.stderr_path, slot, err, stderr) {
                        Err(message) => TaskOutput::IOError(message),
                        Ok(stderr) => TaskOutput::NoError(
                            CommandOutcome { exit_status, stdout, stderr, start, duration },
                        ),
                    },
                }
            },
            other => other,
        }
    }
}

/// A task: its configuration, the history of its executions by slot, the
/// slots whose workers still run, and the statistics.
#[derive(Debug)]
pub struct Task {
    config: TaskConfig,
    executions: Vec<TaskOutput>,
    running_threads: Vec<usize>,
    stats: TaskStatistic,
}

/// The value of a [`Task`].
pub struct TaskModel {
    pub config: ConfigModel,
    /// The slots, in the order of their launches.
    pub executions: Seq<OutputModel>,
    /// The slots whose workers run, in the order in which they are polled.
    pub running: Seq<usize>,
    pub stats: TaskStatistic,
}

/// The list `s` without its element at `i`, the last element moved into the
/// gap.
pub open spec fn swap_removed(s: Seq<usize>, i: int) -> Seq<usize> {
    s.update(i, s.last()).drop_last()
}

impl TaskModel {
    /// The task just made for `config`: nothing launched, nothing recorded.
    pub open spec fn fresh(config: ConfigModel) -> TaskModel {
        TaskModel {
            config,
            executions: Seq::empty(),
            running: Seq::empty(),
            stats: TaskStatistic { count: 0, error_count: 0, total_duration: 0 },
        }
    }

    /// What holds of every task:
    /// no slot runs twice, and the slots that run are exactly those that
    /// wait; every launch is either recorded or running; the statistics are
    /// those of the history; and no more executions run than the limit allows.
    pub open spec fn wf(self) -> bool {
        &&& self.running.no_duplicates()
        &&& forall|i: int|
            0 <= i < self.running.len() ==> (#[trigger] self.running[i]) < self.executions.len()
                && self.executions[self.running[i] as int] is Waiting
        &&& forall|s: int|
            0 <= s < self.executions.len() && (#[trigger] self.executions[s]) is Waiting
                ==> self.running.contains(s as usize)
        &&& self.executions.len() <= usize::MAX
        &&& self.stats.count + self.running.len() == self.executions.len()
        &&& self.stats.tallies(self.executions)
        &&& self.config.max_concurrent_execution matches Some(k) ==> self.running.len() <= k
    }

    /// Whether a launch is refused: the limit is set and reached.
    pub open spec fn cap_reached(self) -> bool {
        self.config.max_concurrent_execution matches Some(k) && self.running.len() >= k
    }

    /// Whether a launch finds the task crowded: the limit is set, and nine
    /// tenths of it, rounded down, run already.
    pub open spec fn crowded(self) -> bool {
        self.config.max_concurrent_execution matches Some(k) && self.running.len() >= 9 * k
            / 10
    }

    /// What a launch answers: the new slot, refused or started.
    pub open spec fn launch(self) -> Launch {
        let slot = self.executions.len() as usize;
        if self.cap_reached() {
            Launch::Rejected { slot }
        } else {
            Launch::Started { slot, crowded: self.crowded() }
        }
    }

    /// The task after a launch. The history grows by one slot. Where the
    /// limit is reached the slot records the refusal, which counts as a
    /// failure; otherwise the slot waits and its worker runs.
    pub open spec fn launched(self) -> TaskModel {
        if self.cap_reached() {
            TaskModel {
                executions: self.executions.push(OutputModel::TooManyThreadsError),
                stats: self.stats.recorded(OutputModel::TooManyThreadsError),
                ..self
            }
        } else {
            TaskModel {
                executions: self.executions.push(OutputModel::Waiting),
                running: self.running.push(self.executions.len() as usize),
                ..self
            }
        }
    }

    /// Whether a report is taken: its slot runs, and the worker returned.
    pub open spec fn accepts(self, report: FinishedModel) -> bool {
        self.running.contains(report.slot) && !(report.output is Waiting)
    }

    /// The task after one report. A report that is taken ends its worker:
    /// the slot leaves the running slots, the last of them taking its place,
    /// records the output with its logs persisted, and is counted. Any other
    /// report changes nothing.
    pub open spec fn reaped(self, report: FinishedModel) -> TaskModel {
        if self.accepts(report) {
            let record = self.config.persisted(report);
            TaskModel {
                executions: self.executions.update(report.slot as int, record),
                running: swap_removed(self.running, self.running.index_of(report.slot)),
                stats: self.stats.recorded(record),
                ..self
            }
        } else {
            self
        }
    }

    /// The task after the reports of `reports`, one after the other.
    pub open spec fn reaped_all(self, reports: Seq<FinishedModel>) -> TaskModel
        decreases reports.len(),
    {
        if reports.len() == 0 {
            self
        } else {
            self.reaped_all(reports.drop_last()).reaped(reports.last())
        }
    }

    /// The task with its log directories under `path`.
    pub open spec fn with_log_path(self, path: Seq<char>) -> TaskModel {
        TaskModel { config: self.config.with_log_path(path), ..self }
    }

    /// The directories that hold the logs of a task under `path`: the
    /// task's own, then `out` and `err` in it.
    pub open spec fn log_directories(path: Seq<char>) -> Seq<Seq<char>> {
        seq![path, joined_path(path, "out"@), joined_path(path, "err"@)]
    }

    /// A launch keeps a task well formed.
    pub proof fn lemma_launched_wf(self)
        requires
            self.wf(),
            self.executions.len() < usize::MAX,
        ensures
            self.launched().wf(),
    {
        let after = self.launched();
        Tally::lemma_bounds(self.executions);
        if self.cap_reached() {
            Tally::lemma_push(self.executions, OutputModel::TooManyThreadsError);
            assert forall|s: int|
                0 <= s < after.executions.len() && (#[trigger] after.executions[s]) is Waiting
                implies after.running.contains(s as usize) by {
                assert(self.executions[s] is Waiting);
            }
        } else {
            Tally::lemma_push(self.executions, OutputModel::Waiting);
            assert forall|s: int|
                0 <= s < after.executions.len() && (#[trigger] after.executions[s]) is Waiting
                implies after.running.contains(s as usize) by {
                if s < self.executions.len() {
                    assert(self.executions[s] is Waiting);
                    let j = self.running.index_of(s as usize);
                    assert(after.running[j] == s as usize);
                } else {
                    assert(after.running[self.running.len() as int] == s as usize);
                }
            }
            assert forall|i: int, j: int|
                0 <= i < after.running.len() && 0 <= j < after.running.len() && i != j
                implies after.running[i] != after.running[j] by {
                if i < self.running.len() {
                    assert(self.running[i] < self.executions.len());
                }
                if j < self.running.len() {
                    assert(self.running[j] < self.executions.len());
                }
            }
            assert forall|i: int| 0 <= i < after.running.len() implies (
            #[trigger] after.running[i]) < after.executions.len()
                && after.executions[after.running[i] as int] is Waiting by {
                if i < self.running.len() {
                    assert(self.running[i] < self.executions.len());
                }
            }
        }
    }

    /// A report keeps a task well formed.
    pub proof fn lemma_reaped_wf(self, report: FinishedModel)
        requires
            self.wf(),
        ensures
            self.reaped(report).wf(),
            self.accepts(report) ==> self.reaped(report).running.len() + 1 == self.running.len(),
            self.accepts(report) ==> self.executions[report.slot as int] is Waiting,
    {
        if self.accepts(report) {
            let after = self.reaped(report);
            let i = self.running.index_of(report.slot);
            let last = self.running.len() - 1;
            let record = self.config.persisted(report);
            assert(self.running[i] == report.slot);
            assert(!(record is Waiting));
            Tally::lemma_bounds(self.executions);
            Tally::lemma_update(self.executions, report.slot as int, record);
            assert forall|j: int| 0 <= j < after.running.len() implies (
            #[trigger] after.running[j]) < after.executions.len()
                && after.executions[after.running[j] as int] is Waiting
                && after.running[j] != report.slot by {
                if j == i {
                    assert(after.running[j] == self.running[last]);
                } else {
                    assert(after.running[j] == self.running[j]);
                }
            }
            assert forall|a: int, b: int|
                0 <= a < after.running.len() && 0 <= b < after.running.len() && a != b
                implies after.running[a] != after.running[b] by {
                let from_a = if a == i { last } else { a };
                let from_b = if b == i { last } else { b };
                assert(after.running[a] == self.running[from_a]);
                assert(after.running[b] == self.running[from_b]);
            }
            assert forall|s: int|
                0 <= s < after.executions.len() && (#[trigger] after.executions[s]) is Waiting
                implies after.running.contains(s as usize) by {
                assert(s != report.slot);
                assert(self.executions[s] is Waiting);
                let j = self.running.index_of(s as usize);
                assert(self.running[j] == s as usize);
                if j == last {
                    assert(after.running[i] == s as usize);
                } else {
                    assert(after.running[j] == s as usize);
                }
            }
        }
    }

    /// Reports keep a task well formed, and never add a running slot.
    pub proof fn lemma_reaped_all_wf(self, reports: Seq<FinishedModel>)
        requires
            self.wf(),
        ensures
            self.reaped_all(reports).wf(),
            self.reaped_all(reports).running.len() <= self.running.len(),
            self.reaped_all(reports).executions.len() == self.executions.len(),
        decreases reports.len(),
    {
        if reports.len() > 0 {
            self.lemma_reaped_all_wf(reports.drop_last());
            self.reaped_all(reports.drop_last()).lemma_reaped_wf(reports.last());
        }
    }
}

/// The running time of fewer executions than `usize` can count, each within
/// 64 bits of nanoseconds, leaves room for one more in 128 bits.
proof fn lemma_time_fits(total: nat, count: nat)
    requires
        total <= count * u64::MAX,
        count < usize::MAX,
    ensures
        total + u64::MAX <= u128::MAX,
{
    assert(count * u64::MAX <= 0xffff_ffff_ffff_fffe * 0xffff_ffff_ffff_ffff) by (nonlinear_arith)
        requires
            count <= 0xffff_ffff_ffff_fffe,
    ;
}

impl DeepView for Task {
    type V = TaskModel;

    closed spec fn deep_view(&self) -> TaskModel {
        TaskModel {
            config: self.config.deep_view(),
            executions: self.executions.deep_view(),
            running: self.running_threads@,
            stats: self.stats,
        }
    }
}

impl Task {
    /// What holds of every task: see [`TaskModel::wf`].
    pub open spec fn wf(&self) -> bool {
        self.deep_view().wf()
    }

    /// A task for `conf`, with nothing launched and nothing recorded.
    pub fn new(conf: TaskConfig) -> (task: Task)
        ensures
            task.wf(),
            task.deep_view() == TaskModel::fresh(conf.deep_view()),
    {
        let task = Task {
            config: conf,
            executions: Vec::new(),
            running_threads: Vec::new(),
            stats: TaskStatistic::default(),
        };
        assert(task.executions.deep_view() =~= Seq::<OutputModel>::empty());
        task
    }

    /// A copy of the configuration.
    pub fn config(&self) -> (conf: TaskConfig)
        ensures
            conf.deep_view() == self.deep_view().config,
    {
        self.config.clone()
    }

    /// Assigns the task its log directories under `path`, and returns the
    /// directories that must exist for its logs to be written: `path`, then
    /// `out` and `err` in it.
    pub fn set_log_path(&mut self, path: String) -> (directories: Vec<String>)
        ensures
            final(self).deep_view() == old(self).deep_view().with_log_path(path@),
            old(self).wf() ==> final(self).wf(),
            directories.deep_view() == TaskModel::log_directories(path@),
    {
        let stdout_path = join_path(path.as_str(), "out");
        let stderr_path = join_path(path.as_str(), "err");
        let mut directories: Vec<String> = Vec::new();
        directories.push(path);
        directories.push(stdout_path.clone());
        directories.push(stderr_path.clone());
        self.config.stdout_path = Some(stdout_path);
        self.config.stderr_path = Some(stderr_path);
        assert(directories.deep_view() =~= TaskModel::log_directories(path@));
        directories
    }

    /// The place of `slot` among the running slots.
    fn position(&self, slot: usize) -> (r: Option<usize>)
        ensures
            match r {
                Some(i) => i < self.running_threads@.len() && self.running_threads@[i as int]
                    == slot,
                None => !self.running_threads@.contains(slot),
            },
    {
        let mut i: usize = 0;
        while i < self.running_threads.len()
            invariant
                i <= self.running_threads@.len(),
                forall|k: int| 0 <= k < i ==> self.running_threads@[k] != slot,
            decreases self.running_threads@.len() - i,
        {
            if self.running_threads[i] == slot {
                return Some(i);
            }
            i = i + 1;
        }
        None
    }

    /// Records `output` in the slot `idx` and counts it.
    fn set_task_output(&mut self, idx: usize, output: TaskOutput)
        requires
            idx < old(self).executions@.len(),
            old(self).stats.count < usize::MAX,
            old(self).stats.error_count < usize::MAX,
            old(self).stats.total_duration + u64::MAX <= u128::MAX,
        ensures
            final(self).executions.deep_view() == old(self).executions.deep_view().update(
                idx as int,
                output.deep_view(),
            ),
            final(self).stats == old(self).stats.recorded(output.deep_view()),
            final(self).running_threads == old(self).running_threads,
            final(self).config == old(self).config,
    {
        self.stats.record(&output);
        self.executions[idx] = output;
        assert(self.executions.deep_view() =~= old(self).executions.deep_view().update(
            idx as int,
            output.deep_view(),
        ));
    }

    /// Launches one more execution. The answer says whether a worker is to
    /// run the command for the new slot, or the launch was refused.
    pub fn run(&mut self) -> (launch: Launch)
        requires
            old(self).wf(),
        ensures
            final(self).wf(),
            final(self).deep_view() == old(self).deep_view().launched(),
            launch == old(self).deep_view().launch(),
    {
        let idx: usize = self.executions.len();
        let running: usize = self.running_threads.len();
        proof {
            Tally::lemma_bounds(self.deep_view().executions);
        }
        self.executions.push(TaskOutput::Waiting);
        assert(self.executions.deep_view() =~= old(self).executions.deep_view().push(
            OutputModel::Waiting,
        ));
        proof {
            vstd::std_specs::vec::axiom_spec_len(&self.executions);
            old(self).deep_view().lemma_launched_wf();
        }
        let crowded: bool = match self.config.max_concurrent_execution {
            Some(max) => {
                if running >= max {
                    proof {
                        lemma_time_fits(self.stats.total_duration as nat, self.stats.count as nat);
                    }
                    self.set_task_output(idx, TaskOutput::TooManyThreadsError);
                    assert(self.executions.deep_view() =~= old(self).executions.deep_view().push(
                        OutputModel::TooManyThreadsError,
                    ));
                    return Launch::Rejected { slot: idx };
                }
                running as u128 >= 9 * (max as u128) / 10
            },
            None => false,
        };
        self.running_threads.push(idx);
        Launch::Started { slot: idx, crowded }
    }

    /// Takes the report of one worker. A report is taken if its slot runs
    /// and the worker returned; the slot then records what the worker
    /// returned, with its logs persisted, and leaves the running slots.
    pub fn reap(&mut self, report: Finished) -> (taken: bool)
        requires
            old(self).wf(),
        ensures
            final(self).wf(),
            final(self).deep_view() == old(self).deep_view().reaped(report.deep_view()),
            taken == old(self).deep_view().accepts(report.deep_view()),
    {
        proof {
            old(self).deep_view().lemma_reaped_wf(report.deep_view());
            Tally::lemma_bounds(self.deep_view().executions);
        }
        if let TaskOutput::Waiting = &report.output {
            return false;
        }
        let slot: usize = report.slot;
        match self.position(slot) {
            None => false,
            Some(i) => {
                assert(self.running_threads@.index_of(slot) == i);
                self.running_threads.swap_remove(i);
                let record = self.config.update_log(report);
                proof {
                    lemma_time_fits(self.stats.total_duration as nat, self.stats.count as nat);
                }
                self.set_task_output(slot, record);
                true
            },
        }
    }

    /// Takes the reports of the workers that have ended since the last
    /// call, in their order, and says whether any was taken.
    pub fn update(&mut self, finished: Vec<Finished>) -> (changed: bool)
        requires
            old(self).wf(),
        ensures
            final(self).wf(),
            final(self).deep_view() == old(self).deep_view().reaped_all(finished.deep_view()),
            changed == (final(self).deep_view().running.len() < old(
                self,
            ).deep_view().running.len()),
    {
        let mut changed: bool = false;
        let ghost reports = finished.deep_view();
        for report in it: finished
            invariant
                self.wf(),
                reports.len() == it.seq().len(),
                forall|k: int| 0 <= k < reports.len() ==> reports[k] == it.seq()[k].deep_view(),
                self.deep_view() == old(self).deep_view().reaped_all(
                    reports.take(it.index() as int),
                ),
                self.deep_view().running.len() <= old(self).deep_view().running.len(),
                changed == (self.deep_view().running.len() < old(self).deep_view().running.len()),
        {
            proof {
                let n = it.index() as int;
                assert(reports.take(n + 1).drop_last() =~= reports.take(n));
                assert(reports.take(n + 1).last() == report.deep_view());
                self.deep_view().lemma_reaped_wf(report.deep_view());
            }
            let taken = self.reap(report);
            changed = changed || taken;
        }
        assert(reports.take(reports.len() as int) =~= reports);
        changed
    }

    /// The number of executions that run.
    pub fn nb_running_tasks(&self) -> (n: usize)
        ensures
            n == self.deep_view().running.len(),
    {
        self.running_threads.len()
    }

    /// Whether any execution runs.
    pub fn are_tasks_running(&self) -> (b: bool)
        ensures
            b == (self.deep_view().running.len() > 0),
    {
        self.running_threads.len() > 0
    }

    /// The history of the executions, by slot, to iterate over.
    pub fn iter(&self) -> (slots: &Vec<TaskOutput>)
        ensures
            slots.deep_view() == self.deep_view().executions,
    {
        &self.executions
    }

    /// The statistics of the recorded executions.
    pub fn stats(&self) -> (stats: &TaskStatistic)
        ensures
            *stats == self.deep_view().stats,
    {
        &self.stats
    }
}

/// One call that changes a task.
pub enum TaskCall {
    /// A launch.
    Run,
    /// The report of a worker.
    Report(FinishedModel),
}

impl TaskModel {
    /// The task after one call.
    pub open spec fn after(self, call: TaskCall) -> TaskModel {
        match call {
            TaskCall::Run => self.launched(),
            TaskCall::Report(report) => self.reaped(report),
        }
    }

    /// The task after the calls of `calls`, one after the other.
    pub open spec fn after_all(self, calls: Seq<TaskCall>) -> TaskModel
        decreases calls.len(),
    {
        if calls.len() == 0 {
            self
        } else {
            self.after_all(calls.drop_last()).after(calls.last())
        }
    }

    /// How many of the calls are launches.
    pub open spec fn runs_in(calls: Seq<TaskCall>) -> nat
        decreases calls.len(),
    {
        if calls.len() == 0 {
            0
        } else {
            TaskModel::runs_in(calls.drop_last()) + if calls.last() is Run {
                1nat
            } else {
                0nat
            }
        }
    }

    /// Slots are only ever added at the end, one for each launch, and a slot
    /// that has reached its last state keeps it: whatever launches and
    /// reports follow, the history grows by the number of launches, and
    /// each slot of before either holds what it held or waited before and
    /// waits no more.
    pub proof fn lemma_slot_monotonicity(self, calls: Seq<TaskCall>)
        requires
            self.wf(),
            self.executions.len() + TaskModel::runs_in(calls) <= usize::MAX,
        ensures
            self.after_all(calls).wf(),
            self.after_all(calls).executions.len() == self.executions.len() + TaskModel::runs_in(
                calls,
            ),
            forall|i: int|
                0 <= i < self.executions.len() ==> self.after_all(calls).executions[i]
                    == #[trigger] self.executions[i] || (self.executions[i] is Waiting
                    && self.after_all(calls).executions[i].is_terminal()),
        decreases calls.len(),
    {
        if calls.len() > 0 {
            let before = self.after_all(calls.drop_last());
            self.lemma_slot_monotonicity(calls.drop_last());
            match calls.last() {
                TaskCall::Run => {
                    before.lemma_launched_wf();
                },
                TaskCall::Report(report) => {
                    before.lemma_reaped_wf(report);
                },
            }
        }
    }

    /// A task that was made and then launched and reported to has one slot
    /// for each launch.
    pub proof fn lemma_one_slot_for_each_run(config: ConfigModel, calls: Seq<TaskCall>)
        requires
            TaskModel::runs_in(calls) <= usize::MAX,
        ensures
            TaskModel::fresh(config).after_all(calls).executions.len() == TaskModel::runs_in(
                calls,
            ),
            TaskModel::fresh(config).after_all(calls).wf(),
    {
        TaskModel::fresh(config).lemma_slot_monotonicity(calls);
    }

    /// No more failures are counted than executions, and no more executions
    /// than there are slots.
    pub proof fn lemma_counts_bounded(self)
        requires
            self.wf(),
        ensures
            self.stats.error_count <= self.stats.count <= self.executions.len(),
    {
    }

    /// Once no execution runs, every launch is counted, the failures
    /// counted are the slots that record a failure, and the mean is the
    /// running time of the slots that ran to their end, divided by their
    /// number.
    pub proof fn lemma_stats_consistency(self)
        requires
            self.wf(),
            self.running.len() == 0,
        ensures
            self.stats.count == self.executions.len(),
            forall|i: int|
                0 <= i < self.executions.len() ==> (#[trigger] self.executions[i]).is_terminal(),
            self.stats.error_count == Tally::of_all(self.executions).errors,
            self.stats.successes() == Tally::of_all(self.executions).successes,
            self.stats.average() == if Tally::of_all(self.executions).successes == 0 {
                0
            } else {
                Tally::of_all(self.executions).time / Tally::of_all(self.executions).successes
            },
    {
        assert forall|i: int| 0 <= i < self.executions.len() implies (
        #[trigger] self.executions[i]).is_terminal() by {
            if self.executions[i] is Waiting {
                assert(self.running.contains(i as usize));
            }
        }
    }

    /// With a limit of `k`, never more than `k` executions run, and a launch
    /// while `k` run is refused: its slot records `TooManyThreadsError`, and
    /// the running executions stay as they are.
    pub proof fn lemma_concurrency_cap(self, k: usize)
        requires
            self.wf(),
            self.config.max_concurrent_execution == Some(k),
        ensures
            self.running.len() <= k,
            self.running.len() == k ==> {
                &&& self.launch() == Launch::Rejected { slot: self.executions.len() as usize }
                &&& self.launched().executions.last() is TooManyThreadsError
                &&& self.launched().running == self.running
            },
            self.running.len() < k ==> {
                &&& self.launch() is Started
                &&& self.launched().executions.last() is Waiting
                &&& self.launched().running.len() == self.running.len() + 1
            },
    {
    }

    /// Assigning the same log directory twice is assigning it once.
    pub proof fn lemma_log_path_idempotent(self, path: Seq<char>)
        ensures
            self.with_log_path(path).with_log_path(path) == self.with_log_path(path),
    {
    }
}

} // verus!
